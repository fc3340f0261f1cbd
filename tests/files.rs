use parch_core::{ApplicationState, FileManager, FileType};

#[test]
fn file_type_from_extension() {
    assert_eq!(FileType::from_extension("md"), FileType::Markdown);
    assert_eq!(FileType::from_extension("MMD"), FileType::Mermaid);
    assert_eq!(FileType::from_extension("Mermaid"), FileType::MermaidMarkdown);
    assert_eq!(FileType::from_extension("txt"), FileType::Markdown);
    assert_eq!(FileType::from_extension(""), FileType::Markdown);
}

#[test]
fn file_type_names() {
    assert_eq!(FileType::Markdown.get_extension(), "md");
    assert_eq!(FileType::Mermaid.get_extension(), "mmd");
    assert_eq!(FileType::MermaidMarkdown.get_extension(), "mermaid");
    assert_eq!(FileType::Markdown.get_filter_name(), "Markdown Files");
    assert_eq!(FileType::Mermaid.get_filter_name(), "Mermaid Files");
    assert_eq!(FileType::MermaidMarkdown.get_filter_name(), "Mermaid Diagram Files");
}

#[test]
fn supported_files() {
    assert_eq!(FileManager::get_supported_extensions(), vec!["md", "mmd", "mermaid"]);
    assert!(FileManager::is_supported_file(Some("MD")));
    assert!(FileManager::is_supported_file(Some("mermaid")));
    assert!(!FileManager::is_supported_file(Some("txt")));
    assert!(!FileManager::is_supported_file(Some("")));
    assert!(!FileManager::is_supported_file(None));
}

#[test]
fn new_file_is_untitled_markdown() {
    let _m = FileManager::new();
    let a = FileManager::create_new_file();
    let b = FileManager::create_new_file();
    assert_eq!(a.name, "Untitled");
    assert_eq!(a.path, None);
    assert!(a.content.is_empty());
    assert!(!a.is_saved);
    assert_eq!(a.file_type, FileType::Markdown);
    assert_eq!(a.id.len(), 36);
    assert_ne!(a.id, b.id);
}

#[test]
fn loaded_file_record() {
    let f = FileManager::load_file_from_path(
        "/tmp/x/diagram.MMD",
        Some("diagram.MMD"),
        Some("MMD"),
        "graph TD".to_string(),
        Some(42),
    );
    assert_eq!(f.name, "diagram.MMD");
    assert_eq!(f.path.as_deref(), Some("/tmp/x/diagram.MMD"));
    assert_eq!(f.content, "graph TD");
    assert_eq!(f.last_modified, Some(42));
    assert!(f.is_saved);
    assert_eq!(f.file_type, FileType::Mermaid);
    let g = FileManager::load_file_from_path("/", None, None, String::new(), None);
    assert_eq!(g.name, "Unknown");
    assert_eq!(g.file_type, FileType::Markdown);
}

#[test]
fn modification_check() {
    let mut f = FileManager::load_file_from_path("a.md", Some("a.md"), Some("md"), String::new(), Some(100));
    assert!(FileManager::check_file_modified(&f, 101));
    assert!(!FileManager::check_file_modified(&f, 100));
    f.last_modified = None;
    assert!(!FileManager::check_file_modified(&f, 101));
    let n = FileManager::create_new_file();
    assert!(!FileManager::check_file_modified(&n, 101));
}

#[test]
fn application_state_default() {
    let s = ApplicationState::default();
    assert_eq!(s.theme, "light");
    assert!(!s.show_settings);
    assert_eq!(s.active_diagram_index, -1);
    assert_eq!(s.cursor_position, None);
    assert_eq!(s.last_file_path, None);
    assert_eq!(s.last_file_content, None);
    assert_eq!(s.last_file_name, None);
    assert!(!s.has_unsaved_changes);
    assert!(!s.show_tree_view);
}
