use db2md::schema::{extract_fields, map_fields_to_columns, SchemaNode};

fn group(entries: Vec<(&str, SchemaNode)>) -> SchemaNode {
    SchemaNode::Group(entries.into_iter().map(|(k, v)| (k.to_string(), v)).collect())
}

/// The complaint-tracking schema: eight scalar leaves below four
/// top-level names.
fn complaint_schema() -> SchemaNode {
    group(vec![
        (
            "organization",
            group(vec![
                ("sbu", SchemaNode::Scalar),
                ("product", SchemaNode::Scalar),
                ("series_id", SchemaNode::Scalar),
            ]),
        ),
        ("date", SchemaNode::Scalar),
        ("engineer", SchemaNode::Scalar),
        (
            "complaint",
            group(vec![
                ("customer", SchemaNode::Scalar),
                ("content", SchemaNode::Scalar),
                ("status", SchemaNode::Scalar),
            ]),
        ),
    ])
}

#[test]
fn test_extract_fields() {
    let schema = complaint_schema();
    let mut fields = Vec::new();
    extract_fields(&schema, "", &mut fields);
    assert_eq!(fields.len(), 8);
    assert!(fields.contains(&"organization.sbu".to_string()));
    assert!(fields.contains(&"date".to_string()));
}

#[test]
fn test_extract_fields_order() {
    let schema = complaint_schema();
    let mut fields = Vec::new();
    extract_fields(&schema, "", &mut fields);
    assert_eq!(
        fields,
        vec![
            "organization.sbu".to_string(),
            "organization.product".to_string(),
            "organization.series_id".to_string(),
            "date".to_string(),
            "engineer".to_string(),
            "complaint.customer".to_string(),
            "complaint.content".to_string(),
            "complaint.status".to_string(),
        ]
    );
}

#[test]
fn test_extract_fields_prefix_and_empty_group() {
    let schema = group(vec![("empty", group(vec![])), ("leaf", SchemaNode::Scalar)]);
    let mut fields = Vec::new();
    extract_fields(&schema, "root", &mut fields);
    assert_eq!(fields, vec!["root.leaf".to_string()]);
}

#[test]
fn test_field_map_no_header() {
    let schema = group(vec![
        (
            "organization",
            group(vec![("sbu", SchemaNode::Scalar), ("product", SchemaNode::Scalar)]),
        ),
        ("date", SchemaNode::Scalar),
        (
            "complaint",
            group(vec![("price", SchemaNode::Scalar), ("customer", SchemaNode::Scalar)]),
        ),
    ]);
    let mut fields = Vec::new();
    extract_fields(&schema, "", &mut fields);
    let headers = Vec::new();
    let mut invalids = vec![];
    let hmap = map_fields_to_columns(&fields, &headers, &mut invalids);
    assert_eq!(hmap.get("organization.sbu"), Some(0usize));
    assert_eq!(hmap.get("organization.product"), Some(1usize));
    assert_eq!(hmap.get("date"), Some(2usize));
    assert_eq!(hmap.get("complaint.price"), Some(3usize));
    assert_eq!(hmap.get("complaint.customer"), Some(4usize));
    assert!(invalids.is_empty());
}

#[test]
fn test_field_map_with_header() {
    let headers = vec![
        "APPLE".to_string(),
        "red".to_string(),
        "2024-10-11".to_string(),
        "3.12".to_string(),
        "California".to_string(),
    ];
    let fields = vec![
        "product.APPLE".to_string(),
        "product.color.red".to_string(),
        "2024-10-11".to_string(),
        "312".to_string(),
        "California".to_string(),
    ];
    let mut invalids = vec![];
    let hmap = map_fields_to_columns(&fields, &headers, &mut invalids);
    assert_eq!(
        hmap.get("product.APPLE"),
        headers.iter().position(|h| h.as_str() == "APPLE")
    );
    assert_eq!(
        hmap.get("product.color.red"),
        headers.iter().position(|h| h.as_str() == "red")
    );
    assert_eq!(
        hmap.get("2024-10-11"),
        headers.iter().position(|h| h.as_str() == "2024-10-11")
    );
    assert!(headers.iter().position(|h| h.as_str() == "312").is_none());
    assert_eq!(hmap.get("312"), None);
    assert_eq!(invalids, vec!["312".to_string()]);
}

#[test]
fn test_headerless_positions() {
    let fields = vec!["a".to_string(), "b".to_string(), "c".to_string()];
    let headers = Vec::new();
    let mut invalids = vec![];
    let hmap = map_fields_to_columns(&fields, &headers, &mut invalids);
    assert_eq!(hmap.len(), 3);
    assert_eq!(hmap.get("a"), Some(0usize));
    assert_eq!(hmap.get("b"), Some(1usize));
    assert_eq!(hmap.get("c"), Some(2usize));
    assert!(invalids.is_empty());
}

#[test]
fn test_header_first_match_wins() {
    let headers = vec!["x".to_string(), "dup".to_string(), "dup".to_string()];
    let fields = vec!["a.dup".to_string(), "b.x".to_string()];
    let mut invalids = vec![];
    let hmap = map_fields_to_columns(&fields, &headers, &mut invalids);
    assert_eq!(hmap.get("a.dup"), Some(1usize));
    assert_eq!(hmap.get("b.x"), Some(0usize));
    assert!(invalids.is_empty());
}

#[test]
fn test_extract_scalar_root_is_one_empty_path() {
    let schema = SchemaNode::Scalar;
    let mut fields = Vec::new();
    extract_fields(&schema, "", &mut fields);
    assert_eq!(fields, vec!["".to_string()]);
}

#[test]
fn test_leaf_match_ignores_empty_middle_segment() {
    let headers = vec!["b".to_string()];
    let fields = vec!["a..b".to_string()];
    let mut invalids = vec![];
    let hmap = map_fields_to_columns(&fields, &headers, &mut invalids);
    assert_eq!(hmap.get("a..b"), Some(0usize));
    assert!(invalids.is_empty());
}

#[test]
fn test_field_mapper_header_only() {
    let headers = vec!["name".to_string(), "color".to_string()];
    let fields = vec![
        "fruit.color".to_string(),
        "fruit.name".to_string(),
        "fruit.weight".to_string(),
    ];
    let hmap = db2md::field_mapper::map_fields_to_columns(&fields, &headers);
    assert_eq!(hmap.get("fruit.color"), Some(1usize));
    assert_eq!(hmap.get("fruit.name"), Some(0usize));
    assert_eq!(hmap.get("fruit.weight"), None);
    assert_eq!(hmap.len(), 2);
}
