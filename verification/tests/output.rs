use dify_agent_runtime::output::{
    advance_to_utf8_boundary, first_complete_rune_len, forward_read_plan, forward_window,
    is_utf8_continuation, tail_read_plan, tail_window, valid_utf8_prefix_len, ReadPlan, TailPlan,
};

#[test]
fn utf8_helpers() {
    let euro = "€".as_bytes();
    assert!(!is_utf8_continuation(euro[0]));
    assert!(is_utf8_continuation(euro[1]));
    assert_eq!(advance_to_utf8_boundary(euro, 1), 3);
    assert_eq!(valid_utf8_prefix_len(b"ab\xe2\x82", 10), 2);
    assert_eq!(valid_utf8_prefix_len("a€".as_bytes(), 3), 1);
    assert_eq!(first_complete_rune_len(euro), 3);
    assert_eq!(first_complete_rune_len(b"\xff"), 0);
}

#[test]
fn forward_window_of_hello() {
    match forward_read_plan(Some(12), 0, 5).unwrap() {
        ReadPlan::Read { start, len } => assert_eq!((start, len), (0, 9)),
        ReadPlan::Answer(_) => panic!("expected a read"),
    }
    let w = forward_window(b"hello wor", 0, 5, 12);
    assert_eq!(w.output, "hello");
    assert_eq!(w.offset, 5);
    assert!(w.truncated);
}

#[test]
fn forward_plan_edges() {
    match forward_read_plan(None, 0, 16).unwrap() {
        ReadPlan::Answer(w) => assert_eq!((w.output.as_str(), w.offset, w.truncated), ("", 0, false)),
        ReadPlan::Read { .. } => panic!("nothing to read"),
    }
    let e = forward_read_plan(None, 3, 16).err().unwrap();
    assert_eq!(e.message, "offset exceeds current file size 0");
    let e = forward_read_plan(Some(4), 9, 16).err().unwrap();
    assert_eq!((e.status_code, e.code.as_str()), (400, "invalid_offset"));
    assert_eq!(e.message, "offset 9 exceeds current file size 4");
    match forward_read_plan(Some(4), 4, 16).unwrap() {
        ReadPlan::Answer(w) => assert_eq!(w.offset, 4),
        ReadPlan::Read { .. } => panic!("at the end"),
    }
}

#[test]
fn window_keeps_whole_characters() {
    let bytes = "€uro".as_bytes();
    let w = forward_window(&bytes[1..], 1, 4, 6);
    assert_eq!(w.output, "ur");
    assert_eq!(w.offset, 5);
    assert!(w.truncated);
    let w = forward_window("€".as_bytes(), 0, 1, 3);
    assert_eq!(w.output, "€");
    assert_eq!(w.offset, 3);
}

#[test]
fn tail_window_of_log() {
    assert!(matches!(tail_read_plan(None, 4), TailPlan::Empty));
    assert!(matches!(tail_read_plan(Some(0), 4), TailPlan::Empty));
    match tail_read_plan(Some(11), 5) {
        TailPlan::Read { start, padded } => assert_eq!((start, padded), (6, 2)),
        TailPlan::Empty => panic!("a tail exists"),
    }
    let w = tail_window(b"llo world", 6, 2);
    assert_eq!(w.output, "world");
    assert_eq!(w.offset, 11);
    assert!(!w.truncated);
}
