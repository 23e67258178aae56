use db2md::mapping::FieldMapping;
use db2md::pipeline::{md_filename, md_filepath, render_row, ConversionResult, RowError};

#[test]
fn test_render_row_ok() {
    let mut mapping = FieldMapping::new();
    mapping.insert("name".to_string(), 0usize);
    mapping.insert("color".to_string(), 1usize);
    let row = vec!["Apple".to_string(), "red".to_string()];
    let doc = render_row(&row, &mapping, 2);
    assert_eq!(doc, Ok("# name\n\nApple\n\n# color\n\nred\n\n".to_string()));
}

#[test]
fn test_render_row_shape_mismatch() {
    let mut mapping = FieldMapping::new();
    mapping.insert("name".to_string(), 0usize);
    let row = vec!["Apple".to_string(), "red".to_string()];
    // the schema declared three fields, the row has two cells
    let doc = render_row(&row, &mapping, 3);
    assert_eq!(doc, Err(RowError::ShapeMismatch));
}

#[test]
fn test_record_outcomes_exact_failures() {
    let mut result = ConversionResult::new(5);
    result.record_outcome(0, true);
    result.record_outcome(1, false);
    result.record_outcome(2, true);
    result.record_outcome(3, false);
    result.record_outcome(4, true);
    assert_eq!(result.total(), 5);
    assert_eq!(result.completed(), 5);
    assert_eq!(result.failed(), &vec![1usize, 3usize]);
    assert!(!result.run_failed());
}

#[test]
fn test_run_failed_when_empty() {
    let result = ConversionResult::new(0);
    assert!(result.run_failed());
}

#[test]
fn test_run_failed_when_every_row_fails() {
    let mut result = ConversionResult::new(2);
    result.record_outcome(0, false);
    result.record_outcome(1, false);
    assert!(result.run_failed());
}

#[test]
fn test_progress_percent() {
    let mut result = ConversionResult::new(4);
    assert_eq!(result.progress_percent(), 0);
    result.record_outcome(0, true);
    assert_eq!(result.progress_percent(), 25);
    result.record_outcome(1, true);
    result.record_outcome(2, false);
    assert_eq!(result.progress_percent(), 75);
    result.record_outcome(3, true);
    assert_eq!(result.progress_percent(), 100);
}

#[test]
fn test_md_filename_pads_to_three_places() {
    assert_eq!(md_filename("test", 1), "test-001.md");
    assert_eq!(md_filename("test", 42), "test-042.md");
    assert_eq!(md_filename("test", 370), "test-370.md");
    assert_eq!(md_filename("test", 1234), "test-1234.md");
    assert_eq!(md_filename("ccms-doc", 0), "ccms-doc-000.md");
}

#[test]
fn test_md_filepath_joins_directory() {
    assert_eq!(md_filepath("./test_output", "test", 1), "./test_output/test-001.md");
    assert_eq!(md_filepath("_md", "ccms-doc", 12), "_md/ccms-doc-012.md");
}
