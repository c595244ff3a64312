use bit::editor::{Document, Position, Row};

fn keep(_text: String) -> Result<(), String> {
    Ok(())
}

fn at(x: usize, y: usize) -> Position {
    Position { x, y }
}

#[test]
fn editor_opens_one_row_per_line() {
    let doc = Document::new("t".to_string(), "ab\r\ncd\n".to_string(), keep);
    assert_eq!(doc.len(), 2);
    assert!(!doc.is_empty());
    assert!(!doc.is_dirty());
    assert_eq!(doc.as_string(), "ab\r\ncd\r\n");
    assert_eq!(doc.title, "t");
}

#[test]
fn editor_empty_content_has_no_rows() {
    let doc = Document::new("t".to_string(), String::new(), keep);
    assert!(doc.is_empty());
    assert_eq!(doc.as_string(), "");
}

#[test]
fn editor_insert_char_and_new_row() {
    let mut doc = Document::new("t".to_string(), "ac".to_string(), keep);
    doc.insert(&at(1, 0), 'b');
    assert_eq!(doc.as_string(), "abc\r\n");
    assert!(doc.is_dirty());
    doc.insert(&at(9, 0), 'd');
    assert_eq!(doc.as_string(), "abcd\r\n");
    doc.insert(&at(0, 1), 'x');
    assert_eq!(doc.as_string(), "abcd\r\nx\r\n");
    assert_eq!(doc.len(), 2);
}

#[test]
fn editor_insert_below_last_row_is_ignored() {
    let mut doc = Document::new("t".to_string(), "a".to_string(), keep);
    doc.insert(&at(0, 5), 'z');
    assert_eq!(doc.as_string(), "a\r\n");
    assert!(!doc.is_dirty());
    doc.delete(&at(0, 1));
    assert!(!doc.is_dirty());
}

#[test]
fn editor_newline_splits_and_delete_joins() {
    let mut doc = Document::new("t".to_string(), "hello\nworld".to_string(), keep);
    doc.insert(&at(2, 0), '\n');
    assert_eq!(doc.as_string(), "he\r\nllo\r\nworld\r\n");
    assert_eq!(doc.len(), 3);
    doc.delete(&at(2, 0));
    assert_eq!(doc.as_string(), "hello\r\nworld\r\n");
    doc.delete(&at(5, 0));
    assert_eq!(doc.as_string(), "helloworld\r\n");
    doc.delete(&at(0, 0));
    assert_eq!(doc.as_string(), "elloworld\r\n");
    doc.delete(&at(9, 0));
    assert_eq!(doc.as_string(), "elloworld\r\n");
}

#[test]
fn editor_newline_at_end_adds_empty_row() {
    let mut doc = Document::new("t".to_string(), "a".to_string(), keep);
    doc.insert(&at(0, 1), '\n');
    assert_eq!(doc.len(), 2);
    assert_eq!(doc.as_string(), "a\r\n\r\n");
}

#[test]
fn editor_delete_undoes_insert() {
    let mut doc = Document::new("t".to_string(), "xyz\nuv".to_string(), keep);
    let before = doc.as_string();
    doc.insert(&at(3, 0), 'q');
    doc.delete(&at(3, 0));
    assert_eq!(doc.as_string(), before);
    doc.insert(&at(1, 1), '\n');
    doc.delete(&at(1, 1));
    assert_eq!(doc.as_string(), before);
}

#[test]
fn editor_saved_text_reopens_to_same_rows() {
    let mut doc = Document::new("t".to_string(), "one\ntwo\r\n\nthree".to_string(), keep);
    doc.insert(&at(3, 0), '!');
    let text = doc.as_string();
    let again = Document::new("t".to_string(), text.clone(), keep);
    assert_eq!(again.as_string(), text);
    assert_eq!(again.len(), doc.len());
}

#[test]
fn editor_save_hands_text_and_clears_dirty() {
    let mut seen: Vec<String> = Vec::new();
    {
        let mut doc = Document::new("t".to_string(), "a\nb".to_string(), |s: String| {
            seen.push(s);
            Ok(())
        });
        doc.insert(&at(1, 0), 'c');
        assert!(doc.is_dirty());
        assert_eq!(doc.save(), Ok(()));
        assert!(!doc.is_dirty());
    }
    assert_eq!(seen, vec!["ac\r\nb\r\n".to_string()]);
}

#[test]
fn editor_failed_save_keeps_dirty() {
    let mut doc = Document::new("t".to_string(), "a".to_string(), |_s: String| Err("disk full".to_string()));
    doc.insert(&at(0, 0), 'b');
    assert_eq!(doc.save(), Err("disk full".to_string()));
    assert!(doc.is_dirty());
}

#[test]
fn editor_row_operations() {
    let mut r = Row::from_chars(vec!['a', 'b', 'c']);
    r.insert(1, 'x');
    assert_eq!(r.text(), "axbc");
    r.insert(10, 'z');
    assert_eq!(r.text(), "axbcz");
    r.delete(0);
    r.delete(10);
    assert_eq!(r.text(), "xbcz");
    let rest = r.split(2);
    assert_eq!(r.text(), "xb");
    assert_eq!(rest.text(), "cz");
    let none = r.split(5);
    assert_eq!(none.len(), 0);
    r.append(&rest);
    assert_eq!(r.text(), "xbcz");
    assert_eq!(Row::new().len(), 0);
}
