use ratatui::style::Color;
use tinyterm::theme::Config;

#[test]
fn only_border_given() {
    let conf = Config::new(b"border: red".to_vec());
    assert_eq!(conf.border(), Color::Red);
    assert_eq!(conf.text(), Color::White);
    assert_eq!(conf.bg(), Color::Black);
    assert_eq!(conf.title(), Color::Green);
}

#[test]
fn full_document() {
    let conf = Config::new(b"border: white\ttext: blue\tbg: black\ttitle: #ff0000".to_vec());
    assert_eq!(conf.border(), Color::White);
    assert_eq!(conf.text(), Color::Blue);
    assert_eq!(conf.bg(), Color::Black);
    assert_eq!(conf.title(), Color::Rgb(255, 0, 0));
}

#[test]
fn malformed_entry_falls_back_alone() {
    let conf = Config::new(b"border: nocolor\ttext: yellow".to_vec());
    assert_eq!(conf.border(), Color::White);
    assert_eq!(conf.text(), Color::Yellow);
}

#[test]
fn first_valid_entry_wins() {
    let conf = Config::new(b"bg: bad\tbg: cyan\tbg: red".to_vec());
    assert_eq!(conf.bg(), Color::Cyan);
    assert_eq!(conf.parse_item(&vec!['b', 'g']), Some(Color::Cyan));
}

#[test]
fn empty_or_binary_document_gives_defaults() {
    let conf = Config::new(Vec::new());
    assert_eq!(conf.parse_item(&vec!['b', 'g']), None);
    assert_eq!(conf.title(), Color::Green);
    let conf = Config::new(vec![0xFF, 0xFE]);
    assert_eq!(conf.border(), Color::White);
}

#[test]
fn unknown_keys_are_ignored() {
    let conf = Config::new(b"shadow: red\ttext: gray".to_vec());
    assert_eq!(conf.text(), Color::Gray);
    assert_eq!(conf.parse_item(&vec!['s', 'h', 'a', 'd', 'o', 'w']), Some(Color::Red));
}

#[test]
fn keys_that_only_begin_with_the_name_are_ignored() {
    let conf = Config::new(b"bgx: red\tbg: cyan".to_vec());
    assert_eq!(conf.bg(), Color::Cyan);
    let conf = Config::new(b"borderline: blue".to_vec());
    assert_eq!(conf.border(), Color::White);
    let conf = Config::new(b"bgx: red\tborderline: blue".to_vec());
    assert_eq!(conf.parse_item(&vec!['b', 'g']), None);
    assert_eq!(conf.parse_item(&vec!['b', 'o', 'r', 'd', 'e', 'r']), None);
}
