use rost::shell::commands::{dispatch, trim, Action};
use rost::shell::console::Console;
use rost::shell::escape::{EscapeParser, Key};
use rost::shell::history::History;
use rost::shell::line_editor::LineEditor;

fn keys(bytes: &[u8]) -> Vec<Key> {
    let mut parser = EscapeParser::new();
    bytes.iter().filter_map(|&b| parser.feed(b)).collect()
}

#[test]
fn plain_bytes_are_keys() {
    assert_eq!(
        keys(b"a\r\x08\x7F\t\x03\x0C\x01"),
        [
            Key::Char(b'a'),
            Key::Enter,
            Key::Backspace,
            Key::Backspace,
            Key::Tab,
            Key::CtrlC,
            Key::CtrlL,
        ]
    );
}

#[test]
fn escape_sequences_are_keys() {
    assert_eq!(
        keys(b"\x1b[A\x1b[B\x1b[C\x1b[D\x1b[H\x1b[F\x1b[3~\x1b[1~\x1b[4~x"),
        [
            Key::ArrowUp,
            Key::ArrowDown,
            Key::ArrowRight,
            Key::ArrowLeft,
            Key::Home,
            Key::End,
            Key::Delete,
            Key::Home,
            Key::End,
            Key::Char(b'x'),
        ]
    );
    assert_eq!(keys(b"\x1bx\x1b[Zy\x1b[9~z"), [Key::Char(b'y'), Key::Char(b'z')]);
}

#[test]
fn line_is_edited() {
    let mut line = LineEditor::new();
    assert!(line.is_empty());
    for &b in b"helo" {
        assert!(line.insert(b));
    }
    assert!(line.move_left());
    assert!(line.insert(b'l'));
    assert_eq!(line.as_bytes(), b"hello");
    assert!(line.backspace());
    assert!(line.backspace());
    assert_eq!(line.as_bytes(), b"heo");
    assert!(line.delete_forward());
    assert!(!line.delete_forward());
    assert!(!line.move_right());
    line.home();
    assert!(!line.move_left());
    assert!(!line.backspace());
    line.end();
    assert!(line.insert(b'!'));
    assert_eq!(line.as_bytes(), b"he!");
    line.load(b"other");
    assert_eq!(line.as_bytes(), b"other");
    line.clear();
    assert!(line.is_empty());
}

#[test]
fn line_has_an_end() {
    let mut line = LineEditor::new();
    let mut n = 0;
    while line.insert(b'x') {
        n += 1;
    }
    assert_eq!(line.as_bytes().len(), n);
    assert!(!line.insert(b'y'));
    line.load(&vec![b'z'; n + 10]);
    assert_eq!(line.as_bytes(), vec![b'z'; n]);
}

#[test]
fn history_recalls_lines() {
    let mut h = History::new();
    assert!(h.is_empty());
    h.push(b"");
    h.push(b"one");
    h.push(b"two");
    h.push(b"two");
    assert_eq!(h.len(), 2);
    assert_eq!(h.get(0), Some(&b"two"[..]));
    assert_eq!(h.get(1), Some(&b"one"[..]));
    assert_eq!(h.get(2), None);
    for i in 0..100 {
        h.push(format!("line {i}").as_bytes());
    }
    assert_eq!(h.get(0), Some(&b"line 99"[..]));
    assert_eq!(h.get(h.len() - 1), Some(format!("line {}", 100 - h.len()).as_bytes()));
}

#[test]
fn commands_are_dispatched() {
    assert_eq!(trim(b"  a b  "), b"a b");
    assert_eq!(trim(b"   "), b"");
    assert_eq!(dispatch(b" halt "), (Action::Halt, vec![]));
    assert_eq!(dispatch(b"   "), (Action::Continue, vec![]));
    let (action, text) = dispatch(b"help");
    assert_eq!(action, Action::Continue);
    assert!(String::from_utf8(text).unwrap().starts_with("Kernel Emergency Console [ring-0]\n"));
    let (_, text) = dispatch(b"info");
    assert!(String::from_utf8(text).unwrap().contains("x86_64 / UEFI\n"));
    let (action, text) = dispatch(b"foo");
    assert_eq!(action, Action::Continue);
    assert_eq!(
        String::from_utf8(text).unwrap(),
        "[kec] unknown command: foo (try: help halt info)\n"
    );
}

#[test]
fn console_runs_commands() {
    let mut console = Console::new();
    let greeting = String::from_utf8(console.greeting()).unwrap();
    assert!(greeting.ends_with("\r\n[kec]# "));
    let mut shown = Vec::new();
    for &b in b"fooo\x08\x01\r" {
        let (out, halt) = console.feed(b);
        shown.extend(out);
        assert!(!halt);
    }
    assert_eq!(
        String::from_utf8(shown).unwrap(),
        "fooo\x08 \x08\n[kec] unknown command: foo (try: help halt info)\n\r\n[kec]# "
    );
    assert_eq!(console.feed(0x7F).0, b"");
    for &b in b"halt" {
        console.feed(b);
    }
    let (out, halt) = console.feed(b'\n');
    assert!(halt);
    assert_eq!(String::from_utf8(out).unwrap(), "\nSystem halting...\n");
}
