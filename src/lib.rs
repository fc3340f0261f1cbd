//! Extraction, classification and validation of fenced diagram blocks in
//! markup text, together with the file-type rules and the default state of
//! the editor around it.

pub mod app_state;
pub mod classify;
pub mod file_manager;
pub mod parser;
pub mod text;
pub mod trusted;

pub use app_state::ApplicationState;
pub use file_manager::{FileContent, FileDialogResult, FileManager, FileType, SaveResult};
pub use parser::{
    MermaidParser,
    ParseResult,
    ParsedDiagram,
    ParsingStats,
    SyntaxError,
    ValidationResult,
};
