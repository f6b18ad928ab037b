use hecto::Document;
use hecto::Position;

fn texts(doc: &Document) -> Vec<String> {
    let mut out: Vec<String> = Vec::new();
    let mut i: usize = 0;
    while let Some(row) = doc.row(i) {
        out.push(String::from(row.as_str()));
        i += 1;
    }
    out
}

#[test]
fn from_text_splits_lines() {
    let doc = Document::from_text("ab\ncd", None);
    assert_eq!(texts(&doc), vec!["ab".to_string(), "cd".to_string()]);
    assert_eq!(doc.len(), 2);
    assert!(!doc.is_empty());
    assert!(!doc.is_dirty());
}

#[test]
fn from_text_line_ending_forms() {
    assert_eq!(texts(&Document::from_text("", None)).len(), 0);
    assert!(Document::from_text("", None).is_empty());
    assert_eq!(texts(&Document::from_text("a\n", None)), vec!["a".to_string()]);
    assert_eq!(
        texts(&Document::from_text("a\r\nb", None)),
        vec!["a".to_string(), "b".to_string()]
    );
    assert_eq!(
        texts(&Document::from_text("\n\n", None)),
        vec![String::new(), String::new()]
    );
    // a carriage return that no line feed follows is kept
    assert_eq!(texts(&Document::from_text("a\r", None)), vec!["a\r".to_string()]);
}

#[test]
fn to_text_terminates_every_row() {
    let doc = Document::from_text("ab\ncd", None);
    assert_eq!(doc.to_text(), "ab\ncd\n");
    let empty = Document::default();
    assert_eq!(empty.to_text(), "");
}

#[test]
fn write_then_read_roundtrips_rows() {
    let doc = Document::from_text("ab\ncd\n\nxy", None);
    let saved = doc.to_text();
    let reopened = Document::from_text(&saved, None);
    assert_eq!(texts(&doc), texts(&reopened));
    assert_eq!(reopened.to_text(), saved);
}

#[test]
fn insert_into_empty_then_newline() {
    let mut doc = Document::default();
    doc.insert(&Position { x: 0, y: 0 }, 'x');
    assert_eq!(texts(&doc), vec!["x".to_string()]);
    doc.insert(&Position { x: 1, y: 0 }, '\n');
    assert_eq!(texts(&doc), vec!["x".to_string(), String::new()]);
    assert!(doc.is_dirty());
}

#[test]
fn insert_newline_splits_the_row() {
    let mut doc = Document::from_text("abcd", None);
    doc.insert(&Position { x: 2, y: 0 }, '\n');
    assert_eq!(texts(&doc), vec!["ab".to_string(), "cd".to_string()]);
    assert!(doc.is_dirty());
}

#[test]
fn insert_newline_at_start_of_row() {
    let mut doc = Document::from_text("ab", None);
    doc.insert(&Position { x: 0, y: 0 }, '\n');
    assert_eq!(texts(&doc), vec![String::new(), "ab".to_string()]);
}

#[test]
fn insert_far_past_the_end_is_rejected() {
    let mut doc = Document::from_text("ab", None);
    doc.insert(&Position { x: 0, y: 5 }, 'x');
    assert_eq!(texts(&doc), vec!["ab".to_string()]);
    assert!(!doc.is_dirty());
}

#[test]
fn insert_one_row_past_the_end_appends() {
    let mut doc = Document::from_text("ab", None);
    doc.insert(&Position { x: 0, y: 1 }, 'x');
    assert_eq!(texts(&doc), vec!["ab".to_string(), "x".to_string()]);
    assert!(doc.is_dirty());
}

#[test]
fn delete_at_row_end_merges_rows() {
    let mut doc = Document::from_text("ab\ncd", None);
    doc.delete(&Position { x: 2, y: 0 });
    assert_eq!(doc.len(), 1);
    assert_eq!(texts(&doc), vec!["abcd".to_string()]);
    assert!(doc.is_dirty());
}

#[test]
fn delete_inside_a_row() {
    let mut doc = Document::from_text("abcd", None);
    doc.delete(&Position { x: 1, y: 0 });
    assert_eq!(texts(&doc), vec!["acd".to_string()]);
    assert!(doc.is_dirty());
}

#[test]
fn delete_past_the_last_row_is_rejected() {
    let mut doc = Document::from_text("ab", None);
    doc.delete(&Position { x: 0, y: 3 });
    assert_eq!(texts(&doc), vec!["ab".to_string()]);
    assert!(!doc.is_dirty());
}

#[test]
fn delete_at_end_of_last_row_marks_dirty_but_changes_nothing() {
    let mut doc = Document::from_text("ab", None);
    doc.delete(&Position { x: 2, y: 0 });
    assert_eq!(texts(&doc), vec!["ab".to_string()]);
    assert!(doc.is_dirty());
}

#[test]
fn mark_saved_clears_the_dirty_flag() {
    let mut doc = Document::from_text("ab", Some("notes.txt".to_string()));
    doc.insert(&Position { x: 0, y: 0 }, 'x');
    assert!(doc.is_dirty());
    doc.mark_saved();
    assert!(!doc.is_dirty());
    assert_eq!(doc.filename, Some("notes.txt".to_string()));
}

#[test]
fn row_accessor_bounds() {
    let doc = Document::from_text("ab\ncd", None);
    assert!(doc.row(0).is_some());
    assert!(doc.row(1).is_some());
    assert!(doc.row(2).is_none());
    assert_eq!(doc.row(1).unwrap().as_str(), "cd");
}
