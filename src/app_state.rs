//! The editor's application state that outlives a session.

use vstd::prelude::*;

verus! {

#[derive(Clone, Debug)]
pub struct ApplicationState {
    /// "light" or "dark".
    pub theme: String,
    pub show_settings: bool,
    /// Index of the selected diagram, -1 for none.
    pub active_diagram_index: i32,
    /// (line, column) of the cursor.
    pub cursor_position: Option<(u32, u32)>,
    pub last_file_path: Option<String>,
    pub last_file_content: Option<String>,
    pub last_file_name: Option<String>,
    pub has_unsaved_changes: bool,
    pub show_tree_view: bool,
}

impl Default for ApplicationState {
    /// Light theme, panels closed, no diagram selected and no file.
    fn default() -> (r: ApplicationState)
        ensures
            r.theme@ == "light"@,
            !r.show_settings,
            r.active_diagram_index == -1,
            r.cursor_position is None,
            r.last_file_path is None,
            r.last_file_content is None,
            r.last_file_name is None,
            !r.has_unsaved_changes,
            !r.show_tree_view,
    {
        ApplicationState {
            theme: String::from_str("light"),
            show_settings: false,
            active_diagram_index: -1,
            cursor_position: None,
            last_file_path: None,
            last_file_content: None,
            last_file_name: None,
            has_unsaved_changes: false,
            show_tree_view: false,
        }
    }
}

} // verus!
