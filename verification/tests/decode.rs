use reasonix_render::decode::{count_frames, decode_error_context, frame_line, frame_step, tally_frames};

fn lines_of(input: &str) -> Vec<String> {
    input.lines().map(|l| l.to_string()).collect()
}

#[test]
fn counts_and_emits_one_line_per_frame() {
    let input = [r#"{"schemaVersion":1,"cols":80,"rows":24,"root":{"kind":"text","runs":[{"text":"a"}]}}"#, r#"{"schemaVersion":1,"cols":80,"rows":24,"root":{"kind":"text","runs":[{"text":"b"}]}}"#, ""].join("\n");
    let count = count_frames(&lines_of(&input)).expect("decode");
    assert_eq!(count, 2);
    let s: String = (1..=count).map(|n| frame_line(n) + "\n").collect();
    assert!(s.contains("frame 1"), "{s}");
    assert!(s.contains("frame 2"), "{s}");
}

#[test]
fn skips_blank_lines_and_keeps_counting() {
    let input = ["", r#"{"schemaVersion":1,"cols":80,"rows":24,"root":{"kind":"text","runs":[{"text":"a"}]}}"#, "   ", r#"{"schemaVersion":1,"cols":80,"rows":24,"root":{"kind":"text","runs":[{"text":"b"}]}}"#, ""].join("\n");
    let count = count_frames(&lines_of(&input)).expect("decode");
    assert_eq!(count, 2);
}

#[test]
fn surfaces_decode_errors_with_line_context() {
    let input = [r#"{"schemaVersion":1,"cols":80,"rows":24,"root":{"kind":"text","runs":[{"text":"a"}]}}"#, r#"{not valid json"#, ""].join("\n");
    let err = count_frames(&lines_of(&input)).unwrap_err();
    assert_eq!(err, 2);
    let msg = decode_error_context(err);
    assert!(msg.contains("line 2"), "{msg}");
}

#[test]
fn frame_lines_and_contexts_are_numbered() {
    assert_eq!(frame_line(7), "frame 7");
    assert_eq!(decode_error_context(12), "decode line 12");
    assert_eq!(count_frames(&Vec::new()), Ok(0));
    assert_eq!(count_frames(&lines_of("1\n[\n2")), Err(2));
    assert_eq!(count_frames(&lines_of("1\n\"x\"\nnull")), Ok(3));
}

#[test]
fn tallies_follow_the_decode_results() {
    let lines: Vec<String> = vec!["a".to_string(), "  ".to_string(), "b".to_string(), "c".to_string()];
    assert_eq!(tally_frames(&lines, &vec![true, false, true, true]), Ok(3));
    assert_eq!(tally_frames(&lines, &vec![true, false, false, true]), Err(3));
    assert_eq!(tally_frames(&lines, &vec![false, true, true, true]), Err(1));
}

#[test]
fn one_line_at_a_time() {
    assert_eq!(frame_step(0, "   "), Ok(None));
    assert_eq!(frame_step(0, r#"{"a":1}"#), Ok(Some(1)));
    assert_eq!(frame_step(41, " [1, 2] "), Ok(Some(42)));
    assert_eq!(frame_step(3, "{not json"), Err(()));
}
