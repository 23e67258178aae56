//! The application's state and its reaction to every user or task
//! event.  Each event maps the state to a new state and to the one
//! action the surrounding front end must perform: opening a file
//! dialog, loading a selected file, or running the conversion.

use vstd::prelude::*;
use crate::mapping::{invalid_fields_spec, map_columns_spec, unique_keys, FieldMapping};
use crate::schema::{extract_fields, leaf_paths, map_fields_to_columns, SchemaNode};

verus! {

/// The state of one conversion session, as the front end sees it.
pub struct Db2MdApp {
    has_header: bool,
    selected_file: Option<String>,
    sheet_name: Option<String>,
    rows_loaded: Option<usize>,
    cols_loaded: Option<usize>,
    data_matrix: Vec<Vec<String>>,
    selected_yaml: Option<String>,
    fields_map: FieldMapping,
    invalid_fields: Vec<String>,
    file_prefix: String,
    output_dir: String,
    progress: usize,
    write_fails: Vec<usize>,
    is_loading: bool,
}

/// The mathematical value of the application state.
#[verifier::ext_equal]
pub struct AppView {
    pub has_header: bool,
    pub selected_file: Option<Seq<char>>,
    pub sheet_name: Option<Seq<char>>,
    pub rows_loaded: Option<usize>,
    pub cols_loaded: Option<usize>,
    pub data_matrix: Seq<Seq<Seq<char>>>,
    pub selected_yaml: Option<Seq<char>>,
    pub fields_map: Seq<(Seq<char>, usize)>,
    pub invalid_fields: Seq<Seq<char>>,
    pub file_prefix: Seq<char>,
    pub output_dir: Seq<char>,
    pub progress: usize,
    pub write_fails: Seq<usize>,
    pub is_loading: bool,
}

impl View for Db2MdApp {
    type V = AppView;

    closed spec fn view(&self) -> AppView {
        AppView {
            has_header: self.has_header,
            selected_file: self.selected_file.deep_view(),
            sheet_name: self.sheet_name.deep_view(),
            rows_loaded: self.rows_loaded,
            cols_loaded: self.cols_loaded,
            data_matrix: self.data_matrix.deep_view(),
            selected_yaml: self.selected_yaml.deep_view(),
            fields_map: self.fields_map@,
            invalid_fields: self.invalid_fields.deep_view(),
            file_prefix: self.file_prefix@,
            output_dir: self.output_dir@,
            progress: self.progress,
            write_fails: self.write_fails@,
            is_loading: self.is_loading,
        }
    }
}

/// User interactions and task completions.
#[derive(Debug)]
pub enum Message {
    SelectFile,
    FileSelected(Option<String>),
    LoadFile,
    SelectYaml,
    YamlSelected(Option<String>),
    LoadYaml,
    SetHasHeader(bool),
    SetFilePrefix(String),
    SetOutputDir(String),
    Convert,
    UpdateProgress((usize, usize)),
    RowsLoaded,
}

/// What the front end is asked to do after handling one message.
#[derive(Debug, Clone, Copy, PartialEq, Eq, Structural)]
pub enum Action {
    /// Nothing beyond the state change.
    Stay,
    /// Open a file dialog for the spreadsheet.
    PickExcelFile,
    /// Open a file dialog for the schema.
    PickYamlFile,
    /// Read the selected spreadsheet, hand its contents to
    /// `excel_loaded`, then send `RowsLoaded`.
    LoadExcelFile,
    /// Parse the selected schema and hand the tree to `schema_loaded`.
    LoadYamlFile,
    /// Render and persist every row, sending one `UpdateProgress` per
    /// completed row.
    RunConversion,
}

impl Db2MdApp {
    /// The field-path mapping never holds a path twice.
    pub open spec fn wf(self) -> bool {
        unique_keys(self@.fields_map)
    }

    /// The window title.
    pub fn title(&self) -> (t: String)
        ensures
            t@ == "db2md"@,
    {
        "db2md".to_owned()
    }

    /// Reacts to one message: the new state is determined by the old
    /// state and the message alone, and the returned action tells the
    /// front end what work to start.
    pub fn update(&mut self, message: Message) -> (action: Action)
        requires
            message matches Message::UpdateProgress(p) ==> old(self)@.progress < usize::MAX
                && p.0 < usize::MAX,
        ensures
            old(self).wf() ==> final(self).wf(),
            match message {
                Message::SelectFile => final(self)@ == old(self)@ && action
                    == Action::PickExcelFile,
                Message::FileSelected(p) => final(self)@ == (AppView {
                    selected_file: p.deep_view(),
                    ..old(self)@
                }) && action == Action::Stay,
                Message::LoadFile => if old(self)@.selected_file is Some {
                    final(self)@ == (AppView { is_loading: true, ..old(self)@ }) && action
                        == Action::LoadExcelFile
                } else {
                    final(self)@ == old(self)@ && action == Action::Stay
                },
                Message::SelectYaml => final(self)@ == old(self)@ && action
                    == Action::PickYamlFile,
                Message::YamlSelected(p) => final(self)@ == (AppView {
                    selected_yaml: p.deep_view(),
                    ..old(self)@
                }) && action == Action::Stay,
                Message::LoadYaml => final(self)@ == old(self)@ && action == (if old(
                    self,
                )@.selected_yaml is Some {
                    Action::LoadYamlFile
                } else {
                    Action::Stay
                }),
                Message::SetHasHeader(v) => final(self)@ == (AppView {
                    has_header: v,
                    ..old(self)@
                }) && action == Action::Stay,
                Message::SetFilePrefix(v) => final(self)@ == (AppView {
                    file_prefix: v@,
                    ..old(self)@
                }) && action == Action::Stay,
                Message::SetOutputDir(v) => final(self)@ == (AppView {
                    output_dir: v@,
                    ..old(self)@
                }) && action == Action::Stay,
                Message::Convert => final(self)@ == (AppView {
                    progress: 0,
                    write_fails: Seq::<usize>::empty(),
                    ..old(self)@
                }) && action == Action::RunConversion,
                Message::UpdateProgress(p) => final(self)@ == (AppView {
                    progress: (old(self)@.progress + 1) as usize,
                    write_fails: if p.1 == 0 {
                        old(self)@.write_fails.push((p.0 + 1) as usize)
                    } else {
                        old(self)@.write_fails
                    },
                    ..old(self)@
                }) && action == Action::Stay,
                Message::RowsLoaded => final(self)@ == (AppView {
                    is_loading: false,
                    ..old(self)@
                }) && action == Action::Stay,
            },
    {
        match message {
            Message::SelectFile => Action::PickExcelFile,
            Message::FileSelected(path) => {
                self.selected_file = path;
                Action::Stay
            },
            Message::LoadFile => {
                if self.selected_file.is_none() {
                    Action::Stay
                } else {
                    self.is_loading = true;
                    Action::LoadExcelFile
                }
            },
            Message::SelectYaml => Action::PickYamlFile,
            Message::YamlSelected(path) => {
                self.selected_yaml = path;
                Action::Stay
            },
            Message::LoadYaml => {
                if self.selected_yaml.is_none() {
                    Action::Stay
                } else {
                    Action::LoadYamlFile
                }
            },
            Message::SetHasHeader(value) => {
                self.has_header = value;
                Action::Stay
            },
            Message::SetFilePrefix(value) => {
                self.file_prefix = value;
                Action::Stay
            },
            Message::SetOutputDir(value) => {
                self.output_dir = value;
                Action::Stay
            },
            Message::Convert => {
                self.write_fails = Vec::new();
                self.progress = 0;
                proof {
                    assert(self.write_fails@ =~= Seq::<usize>::empty());
                }
                Action::RunConversion
            },
            Message::UpdateProgress((idx, result)) => {
                self.progress = self.progress + 1;
                if result == 0 {
                    self.write_fails.push(idx + 1);
                }
                Action::Stay
            },
            Message::RowsLoaded => {
                self.is_loading = false;
                Action::Stay
            },
        }
    }

    /// Takes in what was read from the spreadsheet: the sheet's name,
    /// its row and column counts, and the decoded cell matrix.
    pub fn excel_loaded(&mut self, sheet_name: String, rows: usize, cols: usize, data: Vec<
        Vec<String>,
    >)
        ensures
            final(self)@ == (AppView {
                sheet_name: Some(sheet_name@),
                rows_loaded: Some(rows),
                cols_loaded: Some(cols),
                data_matrix: data.deep_view(),
                ..old(self)@
            }),
            old(self).wf() ==> final(self).wf(),
    {
        self.sheet_name = Some(sheet_name);
        self.rows_loaded = Some(rows);
        self.cols_loaded = Some(cols);
        self.data_matrix = data;
    }

    /// Takes in a parsed schema tree: flattens it, maps the field paths
    /// onto columns (against the first data row when a header is in
    /// use), and replaces the mapping and the invalid-field list.
    pub fn schema_loaded(&mut self, schema: &SchemaNode)
        requires
            old(self)@.has_header ==> old(self)@.data_matrix.len() > 0,
        ensures
            ({
                let paths = leaf_paths(*schema, Seq::<char>::empty());
                let headers = if old(self)@.has_header {
                    old(self)@.data_matrix[0]
                } else {
                    Seq::<Seq<char>>::empty()
                };
                final(self)@ == (AppView {
                    fields_map: map_columns_spec(paths, headers),
                    invalid_fields: invalid_fields_spec(paths, headers),
                    ..old(self)@
                })
            }),
            final(self).wf(),
    {
        let mut fields: Vec<String> = Vec::new();
        proof {
            reveal_strlit("");
            assert(""@ =~= Seq::<char>::empty());
        }
        extract_fields(schema, "", &mut fields);
        proof {
            assert(fields.deep_view() =~= leaf_paths(*schema, Seq::<char>::empty()));
        }
        let empty_headers: Vec<String> = Vec::new();
        let mut invalids: Vec<String> = Vec::new();
        let mapping;
        if self.has_header {
            let headers = &self.data_matrix[0];
            mapping = map_fields_to_columns(&fields, headers, &mut invalids);
            proof {
                assert(self.data_matrix@[0].deep_view() == self@.data_matrix[0]);
            }
        } else {
            proof {
                assert(empty_headers.deep_view() =~= Seq::<Seq<char>>::empty());
            }
            mapping = map_fields_to_columns(&fields, &empty_headers, &mut invalids);
        }
        self.fields_map = mapping;
        self.invalid_fields = invalids;
    }

    pub fn has_header(&self) -> (b: bool)
        ensures
            b == self@.has_header,
    {
        self.has_header
    }

    pub fn selected_file(&self) -> (p: &Option<String>)
        ensures
            p.deep_view() == self@.selected_file,
    {
        &self.selected_file
    }

    pub fn selected_yaml(&self) -> (p: &Option<String>)
        ensures
            p.deep_view() == self@.selected_yaml,
    {
        &self.selected_yaml
    }

    pub fn sheet_name(&self) -> (p: &Option<String>)
        ensures
            p.deep_view() == self@.sheet_name,
    {
        &self.sheet_name
    }

    pub fn rows_loaded(&self) -> (r: &Option<usize>)
        ensures
            *r == self@.rows_loaded,
    {
        &self.rows_loaded
    }

    pub fn cols_loaded(&self) -> (r: &Option<usize>)
        ensures
            *r == self@.cols_loaded,
    {
        &self.cols_loaded
    }

    pub fn data_matrix(&self) -> (d: &Vec<Vec<String>>)
        ensures
            d.deep_view() == self@.data_matrix,
    {
        &self.data_matrix
    }

    pub fn fields_map(&self) -> (m: &FieldMapping)
        ensures
            m@ == self@.fields_map,
    {
        &self.fields_map
    }

    pub fn invalid_fields(&self) -> (v: &Vec<String>)
        ensures
            v.deep_view() == self@.invalid_fields,
    {
        &self.invalid_fields
    }

    pub fn file_prefix(&self) -> (p: &String)
        ensures
            p@ == self@.file_prefix,
    {
        &self.file_prefix
    }

    pub fn output_dir(&self) -> (p: &String)
        ensures
            p@ == self@.output_dir,
    {
        &self.output_dir
    }

    pub fn progress(&self) -> (p: usize)
        ensures
            p == self@.progress,
    {
        self.progress
    }

    pub fn write_fails(&self) -> (v: &Vec<usize>)
        ensures
            v@ == self@.write_fails,
    {
        &self.write_fails
    }

    pub fn is_loading(&self) -> (b: bool)
        ensures
            b == self@.is_loading,
    {
        self.is_loading
    }
}

impl Default for Db2MdApp {
    /// A fresh session: no files selected, no data loaded, the default
    /// output prefix and directory, and no header row expected.
    fn default() -> (app: Db2MdApp)
        ensures
            app@ == (AppView {
                has_header: false,
                selected_file: None,
                sheet_name: None,
                rows_loaded: None,
                cols_loaded: None,
                data_matrix: Seq::<Seq<Seq<char>>>::empty(),
                selected_yaml: None,
                fields_map: Seq::<(Seq<char>, usize)>::empty(),
                invalid_fields: Seq::<Seq<char>>::empty(),
                file_prefix: "ccms-doc"@,
                output_dir: "_md"@,
                progress: 0,
                write_fails: Seq::<usize>::empty(),
                is_loading: false,
            }),
            app.wf(),
    {
        let app = Db2MdApp {
            has_header: false,
            selected_file: None,
            sheet_name: None,
            rows_loaded: None,
            cols_loaded: None,
            data_matrix: Vec::new(),
            selected_yaml: None,
            fields_map: FieldMapping::new(),
            invalid_fields: Vec::new(),
            file_prefix: "ccms-doc".to_owned(),
            output_dir: "_md".to_owned(),
            progress: 0,
            write_fails: Vec::new(),
            is_loading: false,
        };
        proof {
            assert(app.data_matrix.deep_view() =~= Seq::<Seq<Seq<char>>>::empty());
            assert(app.invalid_fields.deep_view() =~= Seq::<Seq<char>>::empty());
            assert(app@ =~~= (AppView {
                has_header: false,
                selected_file: None,
                sheet_name: None,
                rows_loaded: None,
                cols_loaded: None,
                data_matrix: Seq::<Seq<Seq<char>>>::empty(),
                selected_yaml: None,
                fields_map: Seq::<(Seq<char>, usize)>::empty(),
                invalid_fields: Seq::<Seq<char>>::empty(),
                file_prefix: "ccms-doc"@,
                output_dir: "_md"@,
                progress: 0,
                write_fails: Seq::<usize>::empty(),
                is_loading: false,
            }));
        }
        app
    }
}

} // verus!
