use db2md::mapping::FieldMapping;
use db2md::md_gen::generate_markdown;

fn fruit_mapping() -> FieldMapping {
    let mut fields_map = FieldMapping::new();
    fields_map.insert("product.name".to_string(), 0usize);
    fields_map.insert("product.color".to_string(), 1usize);
    fields_map.insert("date".to_string(), 2usize);
    fields_map.insert("customer.price".to_string(), 3usize);
    fields_map.insert("customer.price.origin".to_string(), 4usize);
    fields_map
}

fn fruit_row() -> Vec<String> {
    vec![
        "Apple".to_string(),
        "red".to_string(),
        "2024-10-11".to_string(),
        "$3.14".to_string(),
        "Produced in California".to_string(),
    ]
}

#[test]
fn test_generate_markdown() {
    let fields_map = fruit_mapping();
    let data_row = fruit_row();
    let mut output = String::new();
    let expected_output = String::from(
        "# product\n\n## name\n\nApple\n\n## color\n\nred\n\n# \
         date\n\n2024-10-11\n\n# customer\n\n## price\n\n$3.14\n\n### \
         origin\n\nProduced in California\n\n",
    );
    generate_markdown(&data_row, &fields_map, &mut output);
    assert_eq!(output, expected_output);
}

#[test]
fn test_generate_markdown_deterministic() {
    let fields_map = fruit_mapping();
    let data_row = fruit_row();
    let mut first = String::new();
    generate_markdown(&data_row, &fields_map, &mut first);
    let mut second = String::new();
    generate_markdown(&data_row, &fields_map, &mut second);
    assert_eq!(first, second);
    let mut third = String::new();
    generate_markdown(&data_row, &fields_map, &mut third);
    assert_eq!(second, third);
}

#[test]
fn test_generate_markdown_out_of_range_is_placeholder() {
    let mut fields_map = FieldMapping::new();
    fields_map.insert("name".to_string(), 0usize);
    fields_map.insert("note".to_string(), 7usize);
    let data_row = vec!["Pear".to_string()];
    let mut output = String::new();
    generate_markdown(&data_row, &fields_map, &mut output);
    assert_eq!(output, "# name\n\nPear\n\n# note\n\nN/A\n\n");
}

#[test]
fn test_generate_markdown_empty_mapping() {
    let fields_map = FieldMapping::new();
    let data_row = vec!["unused".to_string()];
    let mut output = String::new();
    generate_markdown(&data_row, &fields_map, &mut output);
    assert_eq!(output, "");
}

#[test]
fn test_generate_markdown_appends_to_output() {
    let mut fields_map = FieldMapping::new();
    fields_map.insert("name".to_string(), 0usize);
    let data_row = vec!["Plum".to_string()];
    let mut output = String::from("before|");
    generate_markdown(&data_row, &fields_map, &mut output);
    assert_eq!(output, "before|# name\n\nPlum\n\n");
}

#[test]
fn test_generate_markdown_orders_by_column() {
    let mut fields_map = FieldMapping::new();
    fields_map.insert("second".to_string(), 1usize);
    fields_map.insert("first".to_string(), 0usize);
    let data_row = vec!["a".to_string(), "b".to_string()];
    let mut output = String::new();
    generate_markdown(&data_row, &fields_map, &mut output);
    assert_eq!(output, "# first\n\na\n\n# second\n\nb\n\n");
}
