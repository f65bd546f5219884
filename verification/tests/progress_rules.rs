use imgren::progress::progress_line;

#[test]
fn progress_line_text() {
    let line = progress_line(2, 7, 1, 15, "001.jpg");
    let mut expected = String::from("\r[");
    for _ in 0..2 {
        expected.push_str("\x1b[92m█\x1b[0m");
    }
    for _ in 0..28 {
        expected.push_str("\x1b[90m░\x1b[0m");
    }
    expected.push_str("] \x1b[92m7% (1/15)\x1b[0m \x1b[92m001.jpg\x1b[0m");
    assert_eq!(line, expected);
}

#[test]
fn full_and_empty_bars() {
    let full = progress_line(30, 100, 4, 4, "x");
    assert_eq!(full.matches('█').count(), 30);
    assert_eq!(full.matches('░').count(), 0);
    let empty = progress_line(0, 0, 0, 9, "");
    assert_eq!(empty.matches('░').count(), 30);
    assert!(empty.ends_with("] \x1b[92m0% (0/9)\x1b[0m \x1b[92m\x1b[0m"));
}
