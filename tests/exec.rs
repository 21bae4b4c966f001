use kitten::exec::maybe_number;

const CONTENTS: &str = "\
Whose woods these are,
I think I know.
His house is in the village, though.";

#[test]
fn number_lines() {
    assert_eq!(
        vec![
            "1 Whose woods these are,",
            "2 I think I know.",
            "3 His house is in the village, though."
        ],
        maybe_number(true, CONTENTS),
    );
}

#[test]
fn unnumbered_lines() {
    assert_eq!(
        vec![
            "Whose woods these are,",
            "I think I know.",
            "His house is in the village, though."
        ],
        maybe_number(false, CONTENTS),
    )
}

#[test]
fn trailing_newline_adds_no_line() {
    assert_eq!(vec!["1 a", "2 b", "3 c"], maybe_number(true, "a\nb\nc\n"));
    assert_eq!(vec!["a", "b", "c"], maybe_number(false, "a\nb\nc\n"));
}

#[test]
fn empty_text_has_no_lines() {
    assert!(maybe_number(true, "").is_empty());
    assert!(maybe_number(false, "").is_empty());
}

#[test]
fn line_count_matches_text() {
    let text = "one\ntwo\n\nfour";
    assert_eq!(4, maybe_number(true, text).len());
    assert_eq!(4, maybe_number(false, text).len());
    assert_eq!(vec!["one", "two", "", "four"], maybe_number(false, text));
}

#[test]
fn blank_lines_are_kept_and_numbered() {
    assert_eq!(vec!["1 ", "2 ", "3 x"], maybe_number(true, "\n\nx"));
    assert_eq!(vec![""], maybe_number(false, "\n"));
}

#[test]
fn crlf_terminators_are_removed() {
    assert_eq!(vec!["a", "b"], maybe_number(false, "a\r\nb\r\n"));
    assert_eq!(vec!["1 a", "2 b\r"], maybe_number(true, "a\r\nb\r"));
}

#[test]
fn numbers_run_past_one_digit() {
    let text = "x\n".repeat(12);
    let lines = maybe_number(true, &text);
    assert_eq!(12, lines.len());
    assert_eq!("9 x", lines[8]);
    assert_eq!("10 x", lines[9]);
    assert_eq!("12 x", lines[11]);
}

#[test]
fn non_ascii_text_is_kept() {
    assert_eq!(vec!["1 héllo", "2 wörld"], maybe_number(true, "héllo\nwörld"));
}
