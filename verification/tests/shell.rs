use rpi_os::line_editor::{LineEditor, BEL, BS, CR, DEL, LF, LINE_CAPACITY};
use rpi_os::shell::{echo, respond, Command, Error, MAX_ARGS};

fn args_of(c: &Command) -> Vec<String> {
    c.args().iter().map(|a| String::from_utf8(a.clone()).unwrap()).collect()
}

#[test]
fn parse_splits_on_spaces() {
    let c = Command::parse(b"  echo   hello  world ", 8).unwrap();
    assert_eq!(args_of(&c), vec!["echo", "hello", "world"]);
    assert_eq!(c.path(), &b"echo".to_vec());
}

#[test]
fn parse_single_word() {
    let c = Command::parse(b"ls", 1).unwrap();
    assert_eq!(args_of(&c), vec!["ls"]);
}

#[test]
fn parse_empty_line() {
    assert!(matches!(Command::parse(b"", 4), Err(Error::Empty)));
    assert!(matches!(Command::parse(b"     ", 4), Err(Error::Empty)));
    assert!(matches!(Command::parse(b"", 0), Err(Error::Empty)));
}

#[test]
fn parse_too_many_args() {
    assert!(matches!(Command::parse(b"a b c", 2), Err(Error::TooManyArgs)));
    assert!(matches!(Command::parse(b"a b c ", 2), Err(Error::TooManyArgs)));
    assert!(matches!(Command::parse(b"a", 0), Err(Error::TooManyArgs)));
    assert!(Command::parse(b"a b", 2).is_ok());
}

#[test]
fn echo_prints_arguments() {
    let c = Command::parse(b"echo hello   there", 8).unwrap();
    assert_eq!(echo(&c), b"hello there\n".to_vec());
    let c = Command::parse(b"echo", 8).unwrap();
    assert_eq!(echo(&c), b"\n".to_vec());
    let c = Command::parse(b"echo one", 8).unwrap();
    assert_eq!(echo(&c), b"one\n".to_vec());
}

#[test]
fn respond_to_lines() {
    assert_eq!(respond(b"echo a b c"), b"a b c\n".to_vec());
    assert_eq!(respond(b"ls -l"), b"unknown command: ls\n".to_vec());
    assert_eq!(respond(b"   "), Vec::<u8>::new());
    assert_eq!(respond(b"echoo x"), b"unknown command: echoo\n".to_vec());
    let many = vec!["x"; MAX_ARGS + 1].join(" ");
    assert_eq!(respond(many.as_bytes()), b"error: too many arguments\n".to_vec());
    let enough = vec!["x"; MAX_ARGS].join(" ");
    assert_eq!(respond(enough.as_bytes()), b"unknown command: x\n".to_vec());
}

fn feed_all(e: &mut LineEditor, keys: &[u8]) -> Vec<u8> {
    let mut out = Vec::new();
    for &k in keys {
        let (o, _) = e.feed(k);
        out.extend(o);
    }
    out
}

#[test]
fn typing_echoes_and_inserts() {
    let mut e = LineEditor::new();
    assert_eq!(feed_all(&mut e, b"ab"), b"ab".to_vec());
    assert_eq!(e.line(), &b"ab".to_vec());
    assert_eq!(e.cursor(), 2);
}

#[test]
fn backspace_erases_before_cursor() {
    let mut e = LineEditor::new();
    feed_all(&mut e, b"abc");
    let (out, done) = e.feed(BS);
    assert!(!done);
    assert_eq!(out, vec![BS, b' ', BS]);
    assert_eq!(e.line(), &b"ab".to_vec());
    assert_eq!(e.cursor(), 2);
    let (out, _) = e.feed(DEL);
    assert_eq!(out, vec![BS, b' ', BS]);
    assert_eq!(e.line(), &b"a".to_vec());
}

#[test]
fn backspace_at_start_rings_bell() {
    let mut e = LineEditor::new();
    let (out, done) = e.feed(BS);
    assert_eq!(out, vec![BEL]);
    assert!(!done);
    assert_eq!(e.line().len(), 0);
}

#[test]
fn return_finishes_line() {
    let mut e = LineEditor::new();
    feed_all(&mut e, b"hi");
    let (out, done) = e.feed(CR);
    assert!(done);
    assert_eq!(out, vec![CR, LF]);
    assert_eq!(e.line(), &b"hi".to_vec());
    let (out, done) = e.feed(LF);
    assert!(done);
    assert_eq!(out, vec![CR, LF]);
}

#[test]
fn other_keys_ring_bell() {
    let mut e = LineEditor::new();
    feed_all(&mut e, b"x");
    for k in [0x1bu8, 0x01, 0x80, 0xff, b'\t'] {
        let (out, done) = e.feed(k);
        assert_eq!(out, vec![BEL]);
        assert!(!done);
    }
    assert_eq!(e.line(), &b"x".to_vec());
}

#[test]
fn full_line_rings_bell() {
    let mut e = LineEditor::new();
    for _ in 0..LINE_CAPACITY {
        e.feed(b'z');
    }
    assert_eq!(e.line().len(), LINE_CAPACITY);
    let (out, _) = e.feed(b'z');
    assert_eq!(out, vec![BEL]);
    assert_eq!(e.line().len(), LINE_CAPACITY);
    e.feed(BS);
    let (out, _) = e.feed(b'y');
    assert_eq!(out, b"y".to_vec());
}

#[test]
fn backspace_undoes_typing_example() {
    let mut e = LineEditor::new();
    feed_all(&mut e, b"ac");
    let before = e.line().clone();
    e.feed(b'q');
    e.feed(BS);
    assert_eq!(e.line(), &before);
    assert_eq!(e.cursor(), 2);
}

/// Replays terminal output on a simple screen model: backspace moves left,
/// printable bytes overwrite at the cursor.
fn replay(cells: &mut Vec<u8>, col: &mut usize, out: &[u8]) {
    for &b in out {
        if b == BS {
            if *col > 0 {
                *col -= 1;
            }
        } else if (0x20..=0x7e).contains(&b) {
            if *col < cells.len() {
                cells[*col] = b;
            } else {
                cells.push(b);
            }
            *col += 1;
        }
    }
}

#[test]
fn echo_keeps_screen_in_step_example() {
    let mut e = LineEditor::new();
    let mut cells = Vec::new();
    let mut col = 0;
    for &k in b"hello" {
        let (out, _) = e.feed(k);
        replay(&mut cells, &mut col, &out);
    }
    for k in [BS, BS, b'L', b'P', DEL] {
        let (out, _) = e.feed(k);
        replay(&mut cells, &mut col, &out);
        assert_eq!(&cells[..e.line().len()], &e.line()[..]);
        assert!(cells[e.line().len()..].iter().all(|&c| c == b' '));
        assert_eq!(col, e.cursor());
    }
    assert_eq!(e.line(), &b"helL".to_vec());
}
