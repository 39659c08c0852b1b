use leg::tools::process::{Capture, HALF_BYTES, MAX_BYTES, MAX_LINES};

#[test]
fn full_output_is_preserved_without_truncation() {
    let mut capture = Capture::default();
    capture.push(b"first\nsecond");
    let output = capture.finish();
    assert_eq!(output.text, "first\nsecond");
    assert_eq!(output.omitted_bytes, 0);
}

#[test]
fn byte_cap_keeps_head_and_tail_and_exact_omitted_count() {
    let mut capture = Capture::default();
    capture.push(&vec![b'x'; MAX_BYTES + 100]);
    let output = capture.finish();
    assert_eq!(output.omitted_bytes, 100);
    assert!(output.text.starts_with(&"x".repeat(HALF_BYTES)));
    assert!(output.text.ends_with(&"x".repeat(HALF_BYTES)));
    assert!(output.text.contains("100 bytes omitted"));
}

#[test]
fn line_cap_keeps_first_and_last_thousand_lines() {
    let mut capture = Capture::default();
    let bytes = (0..=MAX_LINES)
        .map(|line| format!("{line:04}\n"))
        .collect::<String>();
    capture.push(bytes.as_bytes());
    let output = capture.finish();
    assert_eq!(output.omitted_bytes, 5);
    assert!(output.text.starts_with("0000\n"));
    assert!(output.text.contains("...[truncated: 5 bytes omitted]..."));
    assert!(output.text.contains("2000\n"));
}
