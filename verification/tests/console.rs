use mimicwx::editor::{decode_key, Key, LineEditor};

fn typed(e: &LineEditor) -> String {
    e.line.iter().collect()
}

fn feed(e: &mut LineEditor, s: &str) -> (bool, bool, usize) {
    let f = e.feed(&s.as_bytes().to_vec());
    (f.redraw, f.enter, f.clears)
}

#[test]
fn text_is_typed_at_the_cursor() {
    let mut e = LineEditor::new();
    assert_eq!(feed(&mut e, "ab微信😀"), (true, false, 0));
    assert_eq!(typed(&e), "ab微信😀");
    assert_eq!(e.cursor, 5);
    feed(&mut e, "\x1b[D\x1b[Dx");
    assert_eq!(typed(&e), "ab微x信😀");
    feed(&mut e, "\x01^\x05$");
    assert_eq!(typed(&e), "^ab微x信😀$");
}

#[test]
fn backspace_undoes_typing() {
    let mut e = LineEditor::new();
    feed(&mut e, "好a");
    let before = format!("{:?}", e);
    feed(&mut e, "友");
    feed(&mut e, "\x7f");
    assert_eq!(format!("{:?}", e), before);
    feed(&mut e, "\x08\x08\x08");
    assert_eq!(typed(&e), "");
    assert_eq!(feed(&mut e, "\x7f"), (false, false, 0));
}

#[test]
fn keys_move_and_delete() {
    let mut e = LineEditor::new();
    feed(&mut e, "abc\x1b[H\x1b[3~");
    assert_eq!(typed(&e), "bc");
    feed(&mut e, "\x1b[C\x1b[C\x1b[C\x1b[3~");
    assert_eq!(typed(&e), "bc");
    assert_eq!(e.cursor, 2);
    feed(&mut e, "\x1b[D\x1b[C");
    assert_eq!(e.cursor, 2);
    feed(&mut e, "\x1b[H");
    assert_eq!(e.cursor, 0);
    feed(&mut e, "\x1b[F\x15");
    assert_eq!(typed(&e), "");
    assert_eq!(feed(&mut e, "\x0c\x0c"), (true, false, 2));
    assert_eq!(feed(&mut e, "\x1b[Z\x1b\x02"), (false, false, 0));
}

#[test]
fn entering_a_line_ends_the_input() {
    let mut e = LineEditor::new();
    assert_eq!(feed(&mut e, "  /help \rlost"), (true, true, 0));
    assert_eq!(e.submit(), Some("/help".to_string()));
    assert_eq!(typed(&e), "");
    assert_eq!(feed(&mut e, "  \n"), (true, true, 0));
    assert_eq!(e.submit(), None);
    assert_eq!(e.history, vec!["/help"]);
}

#[test]
fn the_history_is_recalled() {
    let mut e = LineEditor::new();
    for c in ["one\n", "two\n", "two\n"] {
        feed(&mut e, c);
        e.submit();
    }
    assert_eq!(e.history, vec!["one", "two"]);
    feed(&mut e, "\x1b[A");
    assert_eq!(typed(&e), "two");
    feed(&mut e, "\x1b[A\x1b[A");
    assert_eq!(typed(&e), "one");
    assert_eq!(e.cursor, 3);
    feed(&mut e, "\x1b[B\x1b[B");
    assert_eq!(typed(&e), "");
    assert_eq!(feed(&mut e, "\x1b[B"), (false, false, 0));
}

#[test]
fn broken_bytes_are_skipped() {
    let mut e = LineEditor::new();
    e.feed(&vec![0xff, b'a', b'b', b'c', b'd']);
    assert_eq!(typed(&e), "d");
    e.feed(&vec![0xe5, 0xbe]);
    assert_eq!(typed(&e), "d");
    e.feed(&vec![0x80, b'x', b'y']);
    assert_eq!(typed(&e), "dy");
    assert!(matches!(decode_key(&vec![0xc3, 0xa9], 0), (Key::Text(s), 2) if s == "é"));
    assert!(matches!(decode_key(&vec![0x1b, b'[', b'3', b'x'], 0), (Key::Nothing, 3)));
}

#[test]
fn the_prompt_places_the_cursor() {
    let mut e = LineEditor::new();
    assert_eq!(e.prompt(), "\r\x1b[K> ");
    feed(&mut e, "微信ab\x1b[D\x1b[D\x1b[D");
    assert_eq!(e.prompt(), "\r\x1b[K> 微信ab\x1b[3D");
}
