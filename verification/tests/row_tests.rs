use hecto::Row;

#[test]
fn from_and_len() {
    let r = Row::from("hello");
    assert_eq!(r.len(), 5);
    assert!(!r.is_empty());
    let e = Row::from("");
    assert_eq!(e.len(), 0);
    assert!(e.is_empty());
}

#[test]
fn len_counts_grapheme_clusters_not_chars() {
    // a + combining ring above, e + combining acute: two clusters, four chars
    let r = Row::from("a\u{310}e\u{301}");
    assert_eq!(r.len(), 2);
}

#[test]
fn default_row_is_empty() {
    let r = Row::default();
    assert_eq!(r.as_str(), "");
    assert_eq!(r.len(), 0);
}

#[test]
fn insert_in_the_middle() {
    let mut r = Row::from("hllo");
    r.insert(1, 'e');
    assert_eq!(r.as_str(), "hello");
    assert_eq!(r.len(), 5);
}

#[test]
fn insert_past_the_end_appends() {
    let mut r = Row::from("ab");
    r.insert(10, 'c');
    assert_eq!(r.as_str(), "abc");
    assert_eq!(r.len(), 3);
}

#[test]
fn insert_respects_cluster_indices() {
    let mut r = Row::from("a\u{310}b");
    r.insert(1, 'x');
    assert_eq!(r.as_str(), "a\u{310}xb");
    assert_eq!(r.len(), 3);
}

#[test]
fn delete_in_range_and_out_of_range() {
    let mut r = Row::from("hello");
    r.delete(1);
    assert_eq!(r.as_str(), "hllo");
    r.delete(10);
    assert_eq!(r.as_str(), "hllo");
    assert_eq!(r.len(), 4);
}

#[test]
fn insert_then_delete_restores() {
    let mut r = Row::from("abcd");
    r.insert(2, 'x');
    assert_eq!(r.as_str(), "abxcd");
    r.delete(2);
    assert_eq!(r.as_str(), "abcd");
    assert_eq!(r.len(), 4);
}

#[test]
fn insert_then_delete_restores_at_every_index() {
    let mut at: usize = 0;
    while at <= 4 {
        let mut r = Row::from("abcd");
        r.insert(at, 'x');
        r.delete(at);
        assert_eq!(r.as_str(), "abcd");
        assert_eq!(r.len(), 4);
        at += 1;
    }
}

#[test]
fn split_then_append_restores_at_every_index() {
    let mut at: usize = 0;
    while at <= 5 {
        let mut r = Row::from("he\u{301}llo");
        let tail = r.split(at);
        r.append(&tail);
        assert_eq!(r.as_str(), "he\u{301}llo");
        assert_eq!(r.len(), 5);
        at += 1;
    }
}

#[test]
fn split_in_the_middle() {
    let mut r = Row::from("hello");
    let tail = r.split(2);
    assert_eq!(r.as_str(), "he");
    assert_eq!(r.len(), 2);
    assert_eq!(tail.as_str(), "llo");
    assert_eq!(tail.len(), 3);
}

#[test]
fn split_past_the_end_gives_empty_tail() {
    let mut r = Row::from("ab");
    let tail = r.split(7);
    assert_eq!(r.as_str(), "ab");
    assert_eq!(r.len(), 2);
    assert_eq!(tail.as_str(), "");
    assert_eq!(tail.len(), 0);
}

#[test]
fn append_concatenates() {
    let mut r = Row::from("ab");
    let other = Row::from("cd");
    r.append(&other);
    assert_eq!(r.as_str(), "abcd");
    assert_eq!(r.len(), 4);
}

#[test]
fn render_replaces_tabs_with_single_spaces() {
    let r = Row::from("a\tb");
    assert_eq!(r.render(0, 3), "a b");
    assert_eq!(r.render(1, 2), " ");
}

#[test]
fn render_clamps_its_range() {
    let r = Row::from("hello");
    assert_eq!(r.render(0, 100), "hello");
    assert_eq!(r.render(2, 4), "ll");
    assert_eq!(r.render(4, 2), "");
    assert_eq!(r.render(9, 12), "");
    assert_eq!(r.render(2, 2), "");
}

#[test]
fn render_slices_by_cluster() {
    let r = Row::from("a\u{310}bc");
    assert_eq!(r.render(0, 1), "a\u{310}");
    assert_eq!(r.render(1, 3), "bc");
}

#[test]
fn as_bytes_gives_the_utf8_of_the_text() {
    let r = Row::from("ab");
    assert_eq!(r.as_bytes(), b"ab");
    let u = Row::from("é");
    assert_eq!(u.as_bytes(), "é".as_bytes());
}
