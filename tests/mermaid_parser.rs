use parch_core::MermaidParser;

#[test]
fn test_parse_single_flowchart() {
    let parser = MermaidParser::new().unwrap();
    let content = r#"
```mermaid
graph TD
    A[Start] --> B[Process]
    B --> C[End]
```
"#;

    let result = parser.parse_content(content);
    assert_eq!(result.diagrams.len(), 1);
    assert_eq!(result.diagrams[0].diagram_type, "flowchart");
    assert!(!result.diagrams[0].has_error);
}

#[test]
fn test_parse_multiple_diagrams() {
    let parser = MermaidParser::new().unwrap();
    let content = r#"
```mermaid
graph TD
    A --> B
```

Some text here

```mermaid
sequenceDiagram
    Alice->>Bob: Hello
```
"#;

    let result = parser.parse_content(content);
    assert_eq!(result.diagrams.len(), 2);
    assert_eq!(result.diagrams[0].diagram_type, "flowchart");
    assert_eq!(result.diagrams[1].diagram_type, "sequence");
}

#[test]
fn test_detect_diagram_types() {
    let parser = MermaidParser::new().unwrap();

    assert_eq!(parser.detect_diagram_type("graph TD"), "flowchart");
    assert_eq!(parser.detect_diagram_type("flowchart LR"), "flowchart");
    assert_eq!(parser.detect_diagram_type("sequenceDiagram"), "sequence");
    assert_eq!(parser.detect_diagram_type("classDiagram"), "class");
    assert_eq!(parser.detect_diagram_type("stateDiagram-v2"), "state");
    assert_eq!(parser.detect_diagram_type("erDiagram"), "er");
    assert_eq!(parser.detect_diagram_type("gantt"), "gantt");
    assert_eq!(parser.detect_diagram_type("pie title My Pie"), "pie");
}

#[test]
fn test_validation() {
    let parser = MermaidParser::new().unwrap();

    // Valid diagram
    let valid_result = parser.validate_diagram("graph TD\n    A --> B", 1);
    assert!(valid_result.is_valid);

    // Empty diagram
    let empty_result = parser.validate_diagram("", 1);
    assert!(!empty_result.is_valid);
    assert_eq!(empty_result.errors[0].message, "Empty diagram content");
}
