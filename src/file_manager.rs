//! Files the editor works on: their kinds, the extensions it accepts, and
//! the records it keeps of an open file. Reading and writing are left to the
//! caller, which hands the results in as plain values.

use vstd::prelude::*;
use crate::classify::equals_str;
use crate::text::chars_of;
use crate::trusted::{lower_of, lowercase, new_id};

verus! {

#[derive(Clone, Copy, Debug, PartialEq, Eq, Structural)]
pub enum FileType {
    Markdown,
    Mermaid,
    MermaidMarkdown,
}

/// The kind of file for a lowercased extension; Markdown where the
/// extension is not known.
pub open spec fn file_type_for(low: Seq<char>) -> FileType {
    if low == "mmd"@ {
        FileType::Mermaid
    } else if low == "mermaid"@ {
        FileType::MermaidMarkdown
    } else {
        FileType::Markdown
    }
}

pub open spec fn extension_spec(t: FileType) -> Seq<char> {
    match t {
        FileType::Markdown => "md"@,
        FileType::Mermaid => "mmd"@,
        FileType::MermaidMarkdown => "mermaid"@,
    }
}

pub open spec fn filter_name_spec(t: FileType) -> Seq<char> {
    match t {
        FileType::Markdown => "Markdown Files"@,
        FileType::Mermaid => "Mermaid Files"@,
        FileType::MermaidMarkdown => "Mermaid Diagram Files"@,
    }
}

/// A lowercased extension the editor opens.
pub open spec fn supported_extension(low: Seq<char>) -> bool {
    low == "md"@ || low == "mmd"@ || low == "mermaid"@
}

impl FileType {
    /// The kind of file for an extension, compared without regard to case.
    pub fn from_extension(ext: &str) -> (r: FileType)
        ensures
            r == file_type_for(lower_of(ext@)),
    {
        let low = lowercase(ext);
        let lc = chars_of(low.as_str());
        if equals_str(&lc, "mmd") {
            FileType::Mermaid
        } else if equals_str(&lc, "mermaid") {
            FileType::MermaidMarkdown
        } else {
            FileType::Markdown
        }
    }

    pub fn get_extension(&self) -> (r: &'static str)
        ensures
            r@ == extension_spec(*self),
    {
        match self {
            FileType::Markdown => "md",
            FileType::Mermaid => "mmd",
            FileType::MermaidMarkdown => "mermaid",
        }
    }

    /// The name of the file-dialog filter for this kind.
    pub fn get_filter_name(&self) -> (r: &'static str)
        ensures
            r@ == filter_name_spec(*self),
    {
        match self {
            FileType::Markdown => "Markdown Files",
            FileType::Mermaid => "Mermaid Files",
            FileType::MermaidMarkdown => "Mermaid Diagram Files",
        }
    }
}

/// An open file as the editor holds it.
#[derive(Clone, Debug)]
pub struct FileContent {
    pub id: String,
    pub name: String,
    pub path: Option<String>,
    pub content: String,
    /// Last modification time on disk, in nanoseconds since the Unix epoch.
    pub last_modified: Option<u128>,
    pub is_saved: bool,
    pub file_type: FileType,
}

/// Outcome of an open-file dialog. A cancelled dialog is no error: neither
/// content nor error.
#[derive(Clone, Debug)]
pub struct FileDialogResult {
    pub success: bool,
    pub file_content: Option<FileContent>,
    pub error: Option<String>,
}

/// Outcome of saving a file.
#[derive(Clone, Debug)]
pub struct SaveResult {
    pub success: bool,
    pub file_path: Option<String>,
    pub error: Option<String>,
}

pub open spec fn opt_view(o: Option<String>) -> Option<Seq<char>> {
    match o {
        Some(s) => Some(s@),
        None => None,
    }
}

pub struct FileManager;

impl FileManager {
    pub fn new() -> (r: FileManager) {
        FileManager
    }

    /// A new, empty, unsaved Markdown file named "Untitled".
    pub fn create_new_file() -> (r: FileContent)
        ensures
            r.id@.len() == 36,
            r.name@ == "Untitled"@,
            r.path is None,
            r.content@.len() == 0,
            r.last_modified is None,
            !r.is_saved,
            r.file_type == FileType::Markdown,
    {
        FileContent {
            id: new_id(),
            name: String::from_str("Untitled"),
            path: None,
            content: String::new(),
            last_modified: None,
            is_saved: false,
            file_type: FileType::Markdown,
        }
    }

    /// The record of a file read from `path`: `file_name` and `extension`
    /// are those of the path, where it has them; `content` and
    /// `last_modified` are what was read.
    pub fn load_file_from_path(
        path: &str,
        file_name: Option<&str>,
        extension: Option<&str>,
        content: String,
        last_modified: Option<u128>,
    ) -> (r: FileContent)
        ensures
            r.id@.len() == 36,
            r.name@ == (match file_name {
                Some(n) => n@,
                None => "Unknown"@,
            }),
            opt_view(r.path) == Some(path@),
            r.content@ == content@,
            r.last_modified == last_modified,
            r.is_saved,
            r.file_type == file_type_for(
                lower_of(
                    match extension {
                        Some(e) => e@,
                        None => "md"@,
                    },
                ),
            ),
    {
        let ext = match extension {
            Some(e) => e,
            None => "md",
        };
        let name = match file_name {
            Some(n) => n,
            None => "Unknown",
        };
        FileContent {
            id: new_id(),
            name: String::from_str(name),
            path: Some(String::from_str(path)),
            content,
            last_modified,
            is_saved: true,
            file_type: FileType::from_extension(ext),
        }
    }

    pub fn get_supported_extensions() -> (r: Vec<&'static str>)
        ensures
            r@.len() == 3,
            r@[0]@ == "md"@,
            r@[1]@ == "mmd"@,
            r@[2]@ == "mermaid"@,
    {
        let mut v: Vec<&'static str> = Vec::new();
        v.push("md");
        v.push("mmd");
        v.push("mermaid");
        v
    }

    /// Whether a path with this extension (if it has one) is a file the
    /// editor opens; compared without regard to case.
    pub fn is_supported_file(extension: Option<&str>) -> (r: bool)
        ensures
            r == (match extension {
                Some(e) => supported_extension(lower_of(e@)),
                None => false,
            }),
    {
        match extension {
            Some(e) => {
                let low = lowercase(e);
                let lc = chars_of(low.as_str());
                equals_str(&lc, "md") || equals_str(&lc, "mmd") || equals_str(&lc, "mermaid")
            },
            None => false,
        }
    }

    /// Whether the file changed on disk since it was read: it has a path and
    /// a recorded modification time, and `current_modified` (the time on
    /// disk now, in nanoseconds since the Unix epoch) is later.
    pub fn check_file_modified(file_content: &FileContent, current_modified: u128) -> (r: bool)
        ensures
            r == (file_content.path is Some && match file_content.last_modified {
                Some(t) => current_modified > t,
                None => false,
            }),
    {
        if file_content.path.is_none() {
            return false;
        }
        match file_content.last_modified {
            Some(t) => current_modified > t,
            None => false,
        }
    }
}

} // verus!
