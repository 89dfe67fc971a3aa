use waywallen::process_stdio::{
    line_message, StderrLineSplitter, StderrSnapshot, StderrTail, MAX_LINE_BYTES, MAX_TAIL_LINES,
};

#[test]
fn limits_failure_line_at_utf8_boundary() {
    let snapshot = StderrSnapshot {
        lines: vec!["一二三".to_string()],
    };
    assert_eq!(snapshot.last_line_limited(4).as_deref(), Some("一…"));
}

#[test]
fn last_line_limited_keeps_short_lines_whole() {
    let snapshot = StderrSnapshot { lines: vec!["a".into(), "hello".into()] };
    assert_eq!(snapshot.last_line(), Some("hello"));
    assert_eq!(snapshot.last_line_limited(5).as_deref(), Some("hello"));
    assert_eq!(snapshot.last_line_limited(2).as_deref(), Some("he…"));
    assert_eq!(snapshot.last_line_limited(0).as_deref(), Some("…"));
    assert_eq!(StderrSnapshot::default().last_line_limited(3), None);
}

#[test]
fn captures_lines_and_bounds_tail() {
    let mut tail = StderrTail::new();
    let mut splitter = StderrLineSplitter::new();
    let mut input: Vec<u8> = b"first\nnon-utf8: \xff\n".to_vec();
    for index in 0..80 {
        input.extend_from_slice(format!("line-{index}\n").as_bytes());
    }
    for byte in input {
        if let Some((line, truncated)) = splitter.push_byte(byte) {
            if let Some(message) = line_message(line, truncated) {
                tail.push(message);
            }
        }
    }
    let (rest, truncated) = splitter.finish();
    assert!(line_message(rest, truncated).is_none());
    let snapshot = tail.snapshot();
    assert_eq!(snapshot.lines.len(), MAX_TAIL_LINES);
    assert_eq!(snapshot.last_line(), Some("line-79"));
    assert!(snapshot.lines.iter().all(|line| line != "first"));
}

#[test]
fn truncates_unbounded_line() {
    let mut splitter = StderrLineSplitter::new();
    for _ in 0..MAX_LINE_BYTES * 2 {
        assert!(splitter.push_byte(b'x').is_none());
    }
    let (line, truncated) = splitter.finish();
    let message = line_message(line, truncated).unwrap();
    assert!(message.ends_with(" [truncated]"));
    assert!(message.len() <= MAX_LINE_BYTES + " [truncated]".len());
}

#[test]
fn line_messages() {
    assert_eq!(line_message(b"hi\r".to_vec(), false).as_deref(), Some("hi"));
    assert_eq!(line_message(b"  \t".to_vec(), false), None);
    assert_eq!(line_message(b"bad \xff".to_vec(), false).as_deref(), Some("bad \u{fffd}"));
    assert_eq!(line_message(Vec::new(), true).as_deref(), Some(" [truncated]"));
}

#[test]
fn tail_drops_oldest_beyond_byte_budget() {
    let mut tail = StderrTail::new();
    let big = "x".repeat(20_000);
    tail.push(big.clone());
    tail.push(big.clone());
    assert_eq!(tail.snapshot().lines.len(), 1);
    tail.push("y".repeat(40_000));
    assert!(tail.snapshot().lines.is_empty());
}
