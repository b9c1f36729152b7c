use nginx_dashboard::tailer::{ReadOutcome, TailAction, Tailer, BACKOFF_MS};

fn text(lines: Vec<Vec<u8>>) -> Vec<String> {
    lines.into_iter().map(|l| String::from_utf8(l).unwrap()).collect()
}

#[test]
fn no_growth_emits_nothing() {
    let mut t = Tailer::new();
    assert!(t.feed(b"").is_empty());
    t.feed(b"half a li");
    assert!(t.feed(b"").is_empty());
    assert!(t.feed(b"").is_empty());
    assert_eq!(text(t.feed(b"ne\n")), vec!["half a line".to_string()]);
}

#[test]
fn appended_lines_are_emitted_in_order() {
    let mut t = Tailer::new();
    let got = text(t.feed(b"first error\nsecond error\nthird error\n"));
    assert_eq!(got, vec!["first error", "second error", "third error"]);
    let got = text(t.feed(b"[warn] 42#0: x\n\n"));
    assert_eq!(got, vec!["[warn] 42#0: x", ""]);
}

#[test]
fn partial_line_waits_for_its_newline() {
    let mut t = Tailer::new();
    assert!(t.feed(b"abc").is_empty());
    assert_eq!(text(t.feed(b"def\ngh")), vec!["abcdef"]);
    assert_eq!(text(t.feed(b"\n")), vec!["gh"]);
}

#[test]
fn read_outcomes_decide_the_next_step() {
    let mut t = Tailer::new();
    match t.on_read(ReadOutcome::EndOfFile) {
        TailAction::Backoff(ms) => assert_eq!(ms, 500),
        _ => panic!("expected a backoff"),
    }
    assert_eq!(BACKOFF_MS, 500);
    match t.on_read(ReadOutcome::Data(b"one\ntwo".to_vec())) {
        TailAction::Emit(lines) => assert_eq!(text(lines), vec!["one"]),
        _ => panic!("expected lines"),
    }
    match t.on_read(ReadOutcome::Data(b"\n".to_vec())) {
        TailAction::Emit(lines) => assert_eq!(text(lines), vec!["two"]),
        _ => panic!("expected lines"),
    }
    assert!(matches!(t.on_read(ReadOutcome::Failed), TailAction::Stop));
}
