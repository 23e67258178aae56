use db2md::state::{Action, Db2MdApp, Message};

#[test]
fn test_app_initialization() {
    let app = Db2MdApp::default();
    assert_eq!(app.title(), "db2md");
}

#[test]
fn test_file_selection() {
    let mut app = Db2MdApp::default();

    // Test file selection message
    let _ = app.update(Message::FileSelected(Some("./tests/fruit_test.xlsx".to_string())));

    // Test YAML selection message
    let _ = app.update(Message::YamlSelected(Some("./tests/schema.yaml".to_string())));
    assert!(true);
}

#[test]
fn test_header_setting() {
    let mut app = Db2MdApp::default();

    // Test setting header flag
    let _ = app.update(Message::SetHasHeader(true));

    // Test setting file prefix
    let _ = app.update(Message::SetFilePrefix("test".to_string()));
    assert!(true)
}

#[test]
fn test_defaults() {
    let app = Db2MdApp::default();
    assert_eq!(app.file_prefix(), "ccms-doc");
    assert_eq!(app.output_dir(), "_md");
    assert!(!app.has_header());
    assert_eq!(app.progress(), 0);
    assert!(app.write_fails().is_empty());
    assert!(!app.is_loading());
}

#[test]
fn test_load_file_needs_selection() {
    let mut app = Db2MdApp::default();
    let action = app.update(Message::LoadFile);
    assert_eq!(action, Action::Stay);

    let _ = app.update(Message::FileSelected(Some("./a.xlsx".to_string())));
    let action = app.update(Message::LoadFile);
    assert_eq!(action, Action::LoadExcelFile);
    assert!(app.is_loading());

    let action = app.update(Message::RowsLoaded);
    assert_eq!(action, Action::Stay);
    assert!(!app.is_loading());
}

#[test]
fn test_update_progress_records_failures() {
    let mut app = Db2MdApp::default();
    let action = app.update(Message::Convert);
    assert_eq!(action, Action::RunConversion);
    assert_eq!(app.progress(), 0);

    // row 0 succeeded, row 1 failed, row 2 succeeded
    let _ = app.update(Message::UpdateProgress((0, 1)));
    let _ = app.update(Message::UpdateProgress((1, 0)));
    let _ = app.update(Message::UpdateProgress((2, 1)));
    assert_eq!(app.progress(), 3);
    assert_eq!(app.write_fails(), &vec![2usize]);

    // a second conversion starts afresh
    let _ = app.update(Message::Convert);
    assert_eq!(app.progress(), 0);
    assert!(app.write_fails().is_empty());
}

#[test]
fn test_excel_loaded_stores_table() {
    let mut app = Db2MdApp::default();
    let data = vec![
        vec!["a".to_string(), "b".to_string()],
        vec!["c".to_string(), "d".to_string()],
    ];
    app.excel_loaded("Sheet1".to_string(), 2, 2, data);
    assert_eq!(app.sheet_name(), &Some("Sheet1".to_string()));
    assert_eq!(app.rows_loaded(), &Some(2));
    assert_eq!(app.cols_loaded(), &Some(2));
    assert_eq!(app.data_matrix().len(), 2);
}
