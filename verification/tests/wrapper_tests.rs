use rustlet::wrapper::{add_pad, align_center, align_right, pad};
use rustlet::split_tokens;

fn strings(v: &[&str]) -> Vec<String> {
    v.iter().map(|s| s.to_string()).collect()
}

#[test]
fn test_align_center() {
    assert_eq!(align_center(&strings(&["x", "x"]), 5), strings(&["  x", "  x"]));
}

#[test]
fn test_align_right() {
    assert_eq!(align_right(&strings(&["x", "x"]), 5), strings(&["    x", "    x"]));
}

#[test]
fn test_padding() {
    assert_eq!(add_pad(&strings(&["x", "x"]), 0), strings(&["x", "x"]));
    assert_eq!(add_pad(&strings(&["x", "x"]), 4), strings(&["    x", "    x"]));
}

#[test]
fn test_padding_utf8() {
    assert_eq!(add_pad(&strings(&["á", "á"]), 0), strings(&["á", "á"]));
    assert_eq!(add_pad(&strings(&["á", "á"]), 4), strings(&["    á", "    á"]));
}

#[test]
fn pad_makes_spaces() {
    assert_eq!(pad(0), "");
    assert_eq!(pad(4), "    ");
}

#[test]
fn split_tokens_alternates_runs() {
    assert_eq!(split_tokens("this is  a test"), strings(&["this", " ", "is", "  ", "a", " ", "test"]));
    assert_eq!(split_tokens("  lead"), strings(&["  ", "lead"]));
    assert_eq!(split_tokens("trail "), strings(&["trail", " "]));
    assert_eq!(split_tokens(""), strings(&[]));
}
