use tinyterm::keys::{parse_ansi, parse_escaped, KeyCode};

#[test]
fn plain_bytes_give_one_event_each() {
    let codes = parse_ansi(b"ab 1\n");
    assert_eq!(
        codes,
        vec![
            KeyCode::Char('a'),
            KeyCode::Char('b'),
            KeyCode::Char(' '),
            KeyCode::Char('1'),
            KeyCode::Char('\n'),
        ]
    );
}

#[test]
fn non_ascii_bytes_are_unknown_one_each() {
    let codes = parse_ansi(&[0xC3, 0xA9, b'x']);
    assert_eq!(codes, vec![KeyCode::Unknown, KeyCode::Unknown, KeyCode::Char('x')]);
}

#[test]
fn empty_input_gives_no_events() {
    assert_eq!(parse_ansi(b""), Vec::<KeyCode>::new());
}

#[test]
fn trailing_escape_is_an_escape_event() {
    assert_eq!(parse_ansi(b"ab\x1b"), vec![KeyCode::Char('a'), KeyCode::Char('b'), KeyCode::Esc]);
    assert_eq!(parse_ansi(b"\x1b"), vec![KeyCode::Esc]);
    assert_eq!(parse_ansi(b"\x1b["), vec![KeyCode::Esc, KeyCode::Char('[')]);
}

#[test]
fn arrow_sequences() {
    assert_eq!(parse_ansi(b"\x1b[A"), vec![KeyCode::ArrowUp]);
    assert_eq!(parse_ansi(b"\x1b[B"), vec![KeyCode::ArrowDown]);
    assert_eq!(parse_ansi(b"\x1b[C"), vec![KeyCode::ArrowRight]);
    assert_eq!(parse_ansi(b"\x1b[D"), vec![KeyCode::ArrowLeft]);
}

#[test]
fn unmatched_second_byte_is_reprocessed() {
    assert_eq!(parse_ansi(b"\x1bX"), vec![KeyCode::Esc, KeyCode::Char('X')]);
}

#[test]
fn unmatched_third_byte_is_reprocessed() {
    assert_eq!(
        parse_ansi(b"\x1b[Zq"),
        vec![KeyCode::Esc, KeyCode::Char('['), KeyCode::Char('Z'), KeyCode::Char('q')]
    );
}

#[test]
fn arrows_between_characters() {
    assert_eq!(
        parse_ansi(b"a\x1b[Db"),
        vec![KeyCode::Char('a'), KeyCode::ArrowLeft, KeyCode::Char('b')]
    );
}

#[test]
fn parse_escaped_moves_cursor() {
    let buf = b"x\x1b[Cy";
    let mut cursor: usize = 1;
    assert_eq!(parse_escaped(buf, &mut cursor), KeyCode::ArrowRight);
    assert_eq!(cursor, 4);
    let mut cursor: usize = 0;
    assert_eq!(parse_escaped(b"\x1b[", &mut cursor), KeyCode::Esc);
    assert_eq!(cursor, 1);
}

#[test]
fn key_text_names_keys() {
    assert_eq!(KeyCode::ArrowUp.text(), vec!['U', 'p']);
    assert_eq!(KeyCode::Char('z').text(), vec!['z']);
    assert_eq!(KeyCode::Esc.text(), vec!['E', 's', 'c']);
    assert_eq!(KeyCode::Unknown.text().iter().collect::<String>(), "Unknown");
}
