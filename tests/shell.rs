use tinyterm::keys::parse_ansi;
use tinyterm::shell::{Shell, ShellAction};

fn spawned(a: ShellAction) -> Option<String> {
    match a {
        ShellAction::Spawn(p) => Some(p.iter().collect()),
        _ => None,
    }
}

fn missing(a: ShellAction) -> Option<String> {
    match a {
        ShellAction::Missing(n) => Some(n.iter().collect()),
        _ => None,
    }
}

fn waits(a: ShellAction) -> bool {
    matches!(a, ShellAction::AwaitInput)
}

#[test]
fn known_command_spawns_once() {
    let mut sh = Shell::new(b"ls\tcat\t").unwrap();
    let echo = sh.feed(&parse_ansi(b"ls\n"));
    assert_eq!(echo, vec!['l', 's', '\n']);
    assert_eq!(spawned(sh.next_action()), Some(String::from("/ram/bin/ls")));
    assert!(waits(sh.next_action()));
}

#[test]
fn unknown_command_is_reported_without_spawn() {
    let mut sh = Shell::new(b"ls\tcat\t").unwrap();
    sh.feed(&parse_ansi(b"nope\n"));
    assert_eq!(missing(sh.next_action()), Some(String::from("nope")));
    assert!(waits(sh.next_action()));
}

#[test]
fn second_command_in_same_chunk_is_kept() {
    let mut sh = Shell::new(b"ls\tcat\t").unwrap();
    sh.feed(&parse_ansi(b"ls\ncat\n"));
    assert_eq!(spawned(sh.next_action()), Some(String::from("/ram/bin/ls")));
    assert_eq!(spawned(sh.next_action()), Some(String::from("/ram/bin/cat")));
    assert!(waits(sh.next_action()));
}

#[test]
fn partial_line_waits_for_more_input() {
    let mut sh = Shell::new(b"ls\tcat\t").unwrap();
    sh.feed(&parse_ansi(b"ca"));
    assert!(waits(sh.next_action()));
    sh.feed(&parse_ansi(b"t\n"));
    assert_eq!(spawned(sh.next_action()), Some(String::from("/ram/bin/cat")));
}

#[test]
fn non_character_keys_are_left_out_of_the_name() {
    let mut sh = Shell::new(b"ls\tcat\t").unwrap();
    let echo = sh.feed(&parse_ansi(b"l\x1b[As\n"));
    assert_eq!(echo, vec!['l', 's', '\n']);
    assert_eq!(spawned(sh.next_action()), Some(String::from("/ram/bin/ls")));
}

#[test]
fn piece_after_last_tab_is_not_a_command() {
    let mut sh = Shell::new(b"ls\tcat").unwrap();
    sh.feed(&parse_ansi(b"cat\n"));
    assert_eq!(missing(sh.next_action()), Some(String::from("cat")));
    assert!(sh.knows(&vec!['l', 's']));
    assert!(!sh.knows(&vec!['c', 'a', 't']));
}

#[test]
fn empty_line_is_an_unknown_command() {
    let mut sh = Shell::new(b"ls\t").unwrap();
    sh.feed(&parse_ansi(b"\n"));
    assert_eq!(missing(sh.next_action()), Some(String::new()));
}

#[test]
fn listing_that_is_not_text_gives_no_shell() {
    assert!(Shell::new(&[0xFF, b'\t']).is_none());
}
