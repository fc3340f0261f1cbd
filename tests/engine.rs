use parch_core::classify::{declaration_accepted, dialect_from_matches};
use parch_core::parser::{count_types, node_ids_invalid};
use parch_core::MermaidParser;

fn parser() -> MermaidParser {
    MermaidParser::new().unwrap()
}

#[test]
fn text_without_fences_has_no_diagrams() {
    let r = parser().parse_content("# Title\n\nJust prose, `code` and ``` nothing else.\ngraph TD\n");
    assert!(r.diagrams.is_empty());
    assert_eq!(r.total_errors, 0);
    let r = parser().parse_content("");
    assert!(r.diagrams.is_empty());
    assert_eq!(r.total_errors, 0);
}

#[test]
fn single_block_line_range() {
    let r = parser().parse_content("```mermaid\ngraph TD\n    A-->B\n```");
    assert_eq!(r.diagrams.len(), 1);
    let d = &r.diagrams[0];
    assert_eq!(d.diagram_type, "flowchart");
    assert!(!d.has_error);
    assert_eq!(d.start_line, 2);
    assert_eq!(d.end_line, 3);
    assert_eq!(d.content, "graph TD\n    A-->B");
    assert_eq!(d.error_message, None);
    assert_eq!(d.id.len(), 36);
    assert_eq!(r.total_errors, 0);
}

#[test]
fn validate_empty_content() {
    let v = parser().validate_diagram("", 1);
    assert!(!v.is_valid);
    assert_eq!(v.errors.len(), 1);
    assert_eq!(v.errors[0].message, "Empty diagram content");
    assert_eq!(v.errors[0].severity, "error");
    assert_eq!(v.errors[0].line, 1);
    assert_eq!(v.errors[0].column, 1);
    let w = parser().validate_diagram("  \n\t\n", 7);
    assert!(!w.is_valid);
    assert_eq!(w.errors.len(), 1);
    assert_eq!(w.errors[0].line, 7);
}

#[test]
fn validate_well_formed_flowchart() {
    let v = parser().validate_diagram("graph TD\n    A --> B", 1);
    assert!(v.is_valid);
    assert!(v.errors.iter().all(|e| e.severity != "error"));
    assert!(v.errors.is_empty());
}

#[test]
fn classify_examples() {
    let p = parser();
    assert_eq!(p.detect_diagram_type("sequenceDiagram"), "sequence");
    assert_eq!(p.detect_diagram_type("stateDiagram-v2"), "state");
    assert_eq!(p.detect_diagram_type("totally unknown text"), "unknown");
    assert_eq!(p.detect_diagram_type(""), "unknown");
    assert_eq!(p.detect_diagram_type("   journey\n  title x"), "journey");
    assert_eq!(p.detect_diagram_type("gitgraph"), "gitgraph");
    assert_eq!(p.detect_diagram_type("requirementDiagram"), "requirement");
    assert_eq!(p.detect_diagram_type("C4Context"), "c4context");
    assert_eq!(p.detect_diagram_type("mindmap"), "mindmap");
    assert_eq!(p.detect_diagram_type("timeline"), "timeline");
}

#[test]
fn classify_fallback_is_case_insensitive() {
    let p = parser();
    // no direction token: only the fallback sees "graph"
    assert_eq!(p.detect_diagram_type("graph"), "flowchart");
    assert_eq!(p.detect_diagram_type("My GRAPH here"), "flowchart");
    assert_eq!(p.detect_diagram_type("SEQUENCEDIAGRAM"), "sequence");
    assert_eq!(p.detect_diagram_type("ClassDiagram"), "class");
    assert_eq!(p.detect_diagram_type("x StateDiagram"), "state");
    assert_eq!(p.detect_diagram_type("ERDIAGRAM"), "er");
    assert_eq!(p.detect_diagram_type("GANTT"), "gantt");
    assert_eq!(p.detect_diagram_type("Pie"), "pie");
}

#[test]
fn unclosed_fence_runs_to_last_line() {
    let r = parser().parse_content("```mermaid\ngraph TD\n    A-->B\n");
    assert_eq!(r.diagrams.len(), 1);
    assert_eq!(r.diagrams[0].diagram_type, "flowchart");
    assert_eq!(r.diagrams[0].start_line, 2);
    assert_eq!(r.diagrams[0].end_line, 3);
    assert!(!r.diagrams[0].has_error);
}

#[test]
fn extraction_is_repeatable() {
    let text = "intro\n```mermaid\ngraph TD\n A-->B\n```\n```mmd\nnot a diagram\n```\n";
    let p = parser();
    let a = p.parse_content(text);
    let b = p.parse_content(text);
    assert_eq!(a.diagrams.len(), b.diagrams.len());
    assert_eq!(a.total_errors, b.total_errors);
    for (x, y) in a.diagrams.iter().zip(b.diagrams.iter()) {
        assert_eq!(x.diagram_type, y.diagram_type);
        assert_eq!(x.start_line, y.start_line);
        assert_eq!(x.end_line, y.end_line);
        assert_eq!(x.has_error, y.has_error);
        assert_ne!(x.id, y.id);
    }
}

#[test]
fn bracket_check_per_line() {
    let p = parser();
    let bad = p.validate_diagram("graph TD\nA[foo", 1);
    assert!(bad.is_valid);
    assert_eq!(bad.errors.len(), 1);
    assert_eq!(bad.errors[0].message, "Unmatched brackets detected");
    assert_eq!(bad.errors[0].severity, "warning");
    assert_eq!(bad.errors[0].line, 2);
    let good = p.validate_diagram("graph TD\nA[foo]", 1);
    assert!(good.errors.is_empty());
    // a closer with the wrong opener, and a bracket closed on the next line
    let crossed = p.validate_diagram("graph TD\nA[foo)\nB(x\n)", 10);
    let lines: Vec<usize> = crossed.errors.iter().map(|e| e.line).collect();
    assert_eq!(lines, vec![11, 12, 13]);
}

#[test]
fn two_blocks_in_document_order() {
    let text = "```mermaid\ngraph LR\n  A-->B\n```\n\nprose between\n\n```mermaid\nsequenceDiagram\n  A->>B: hi\n```\n";
    let r = parser().parse_content(text);
    assert_eq!(r.diagrams.len(), 2);
    assert_eq!(r.diagrams[0].diagram_type, "flowchart");
    assert_eq!(r.diagrams[1].diagram_type, "sequence");
    assert_eq!((r.diagrams[0].start_line, r.diagrams[0].end_line), (2, 3));
    assert_eq!((r.diagrams[1].start_line, r.diagrams[1].end_line), (9, 10));
    assert!(r.diagrams[0].end_line < r.diagrams[1].start_line);
}

#[test]
fn invalid_declaration_is_an_error() {
    let v = parser().validate_diagram("  hello world  \nA --> B", 4);
    assert!(!v.is_valid);
    assert_eq!(v.errors.len(), 1);
    assert_eq!(v.errors[0].message, "Invalid diagram declaration: 'hello world'");
    assert_eq!(v.errors[0].severity, "error");
    assert_eq!(v.errors[0].line, 4);
}

#[test]
fn declaration_prefixes_are_accepted() {
    let p = parser();
    assert!(p.validate_diagram("JOURNEY", 1).is_valid);
    assert!(p.validate_diagram("gitGraph", 1).is_valid);
    assert!(p.validate_diagram("Graph", 1).is_valid);
    assert!(!p.validate_diagram("mygraph", 1).is_valid);
}

#[test]
fn diagnostics_come_in_order() {
    let v = parser().validate_diagram("oops\nA[x\n__n(y)", 1);
    let got: Vec<(usize, &str, &str)> = v
        .errors
        .iter()
        .map(|e| (e.line, e.message.as_str(), e.severity.as_str()))
        .collect();
    assert_eq!(
        got,
        vec![
            (1, "Invalid diagram declaration: 'oops'", "error"),
            (2, "Unmatched brackets detected", "warning"),
            (3, "Invalid characters in node ID", "warning"),
        ]
    );
}

#[test]
fn node_identifier_checks() {
    let p = parser();
    let long = format!("graph TD\n{}[x]", "a".repeat(51));
    let v = p.validate_diagram(&long, 1);
    assert_eq!(v.errors.len(), 1);
    assert_eq!(v.errors[0].message, "Invalid characters in node ID");
    let ok = format!("graph TD\n{}[x]", "a".repeat(50));
    assert!(p.validate_diagram(&ok, 1).errors.is_empty());
    let spaced = p.validate_diagram("graph TD\n    __hidden  (x)", 1);
    assert_eq!(spaced.errors.len(), 1);
    assert_eq!(spaced.errors[0].line, 2);
    assert!(p.validate_diagram("graph TD\n    _ok[x] --> B(y)", 1).errors.is_empty());
}

#[test]
fn node_ids_invalid_on_found_candidates() {
    assert!(!node_ids_invalid(&vec!["A[".to_string(), "B (".to_string()]));
    assert!(node_ids_invalid(&vec!["A[".to_string(), "__x(".to_string()]));
    // an identifier ends at the first character that cannot continue it
    assert!(!node_ids_invalid(&vec!["a--b[".to_string()]));
    assert!(!node_ids_invalid(&vec![]));
}

#[test]
fn dialect_from_given_matches() {
    let mut hits = vec![false; 13];
    assert_eq!(dialect_from_matches(&hits, "nothing"), "unknown");
    assert_eq!(dialect_from_matches(&hits, "a pie chart"), "pie");
    assert_eq!(dialect_from_matches(&hits, "graph and gantt"), "flowchart");
    hits[12] = true;
    assert_eq!(dialect_from_matches(&hits, "graph"), "timeline");
    hits[3] = true;
    assert_eq!(dialect_from_matches(&hits, "graph"), "state");
    assert_eq!(dialect_from_matches(&vec![], "erdiagram"), "er");
}

#[test]
fn declaration_from_given_matches() {
    let none = vec![false; 13];
    assert!(!declaration_accepted(&none, "hello"));
    assert!(declaration_accepted(&none, "gitgraph"));
    assert!(!declaration_accepted(&none, "a gitgraph"));
    let mut one = none.clone();
    one[5] = true;
    assert!(declaration_accepted(&one, "hello"));
}

#[test]
fn invalid_block_counts_errors() {
    let text = "```mermaid\nnot a diagram\nA[x\n```\n```mermaid\ngraph TD\n```";
    let r = parser().parse_content(text);
    assert_eq!(r.diagrams.len(), 2);
    assert!(r.diagrams[0].has_error);
    assert_eq!(r.diagrams[0].diagram_type, "unknown");
    assert_eq!(
        r.diagrams[0].error_message.as_deref(),
        Some("Invalid diagram declaration: 'not a diagram'")
    );
    assert!(!r.diagrams[1].has_error);
    // one error-severity diagnostic; the bracket warning does not count
    assert_eq!(r.total_errors, 1);
}

#[test]
fn warnings_give_a_message_but_no_error() {
    let r = parser().parse_content("```mermaid\ngraph TD\nA[x\n```");
    assert_eq!(r.diagrams.len(), 1);
    assert!(!r.diagrams[0].has_error);
    assert_eq!(r.diagrams[0].error_message.as_deref(), Some("Unmatched brackets detected"));
    assert_eq!(r.total_errors, 0);
}

#[test]
fn empty_blocks_leave_no_record() {
    let r = parser().parse_content("```mermaid\n```\ntext\n```mmd\n```\n```mermaid");
    assert!(r.diagrams.is_empty());
    assert_eq!(r.total_errors, 0);
}

#[test]
fn whitespace_only_block_is_empty_error() {
    let r = parser().parse_content("```mermaid\n   \n```");
    assert_eq!(r.diagrams.len(), 1);
    assert!(r.diagrams[0].has_error);
    assert_eq!(r.diagrams[0].error_message.as_deref(), Some("Empty diagram content"));
    assert_eq!(r.diagrams[0].diagram_type, "unknown");
    assert_eq!(r.total_errors, 1);
}

#[test]
fn mmd_fence_and_reopened_fence() {
    let r = parser().parse_content("  ```mmd  \npie\n```mermaid\ngantt\n  ```  ");
    assert_eq!(r.diagrams.len(), 1);
    assert_eq!(r.diagrams[0].diagram_type, "gantt");
    assert_eq!(r.diagrams[0].start_line, 4);
    assert_eq!(r.diagrams[0].end_line, 4);
}

#[test]
fn crlf_line_endings() {
    let r = parser().parse_content("```mermaid\r\ngraph TD\r\n  A-->B\r\n```\r\n");
    assert_eq!(r.diagrams.len(), 1);
    assert_eq!(r.diagrams[0].content, "graph TD\n  A-->B");
    assert_eq!(r.diagrams[0].diagram_type, "flowchart");
}

#[test]
fn parsing_stats_count_dialects() {
    let text = "```mermaid\ngraph TD\n```\n```mermaid\nsequenceDiagram\n```\n```mermaid\nflowchart LR\n```\n```mermaid\nbogus\n```";
    let s = parser().get_parsing_stats(text);
    assert_eq!(s.total_diagrams, 4);
    assert_eq!(s.total_errors, 1);
    let types: Vec<(&str, usize)> = s.diagram_types.iter().map(|(n, c)| (n.as_str(), *c)).collect();
    assert_eq!(types, vec![("flowchart", 2), ("sequence", 1), ("unknown", 1)]);
}

#[test]
fn count_types_on_records() {
    let p = parser();
    let r = p.parse_content("");
    assert!(count_types(&r.diagrams).is_empty());
}
