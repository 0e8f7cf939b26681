use editor_backend::clipboard::{Clipboard, PasteAction};

#[test]
fn copy_then_paste_keeps_the_item() {
    let mut c = Clipboard::new();
    assert_eq!(c.clipboard_copy("/a/b.txt".to_string(), 42), "Copied /a/b.txt to clipboard");
    let st = c.clipboard_get_status().unwrap();
    assert_eq!(st.file_path, "/a/b.txt");
    assert_eq!(st.operation, "copy");
    assert_eq!(st.timestamp, 42);
    match c.clipboard_paste() {
        Ok(PasteAction::Copy(src)) => assert_eq!(src, "/a/b.txt"),
        _ => panic!("expected a copy"),
    }
    assert!(c.clipboard_get_status().is_some());
}

#[test]
fn cut_then_paste_empties_the_clipboard() {
    let mut c = Clipboard::new();
    assert_eq!(c.clipboard_cut("/x".to_string(), 7), "Cut /x to clipboard");
    match c.clipboard_paste() {
        Ok(PasteAction::Move(src)) => assert_eq!(src, "/x"),
        _ => panic!("expected a move"),
    }
    assert!(c.clipboard_get_status().is_none());
    assert!(matches!(c.clipboard_paste(), Err(e) if e == "Clipboard is empty"));
}

#[test]
fn unknown_operation_and_clear() {
    let mut c = Clipboard::new();
    c.clipboard_copy("/y".to_string(), 8);
    c.item.as_mut().unwrap().operation = "link".to_string();
    assert!(matches!(c.clipboard_paste(), Err(e) if e == "Invalid clipboard operation"));
    assert_eq!(c.clipboard_clear(), "Clipboard cleared");
    assert!(c.item.is_none());
}
