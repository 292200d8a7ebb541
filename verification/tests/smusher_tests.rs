use rustlet::smusher::{amount, trim};
use rustlet::FIGchar;

fn strings(v: &[&str]) -> Vec<String> {
    v.iter().map(|s| s.to_string()).collect()
}

#[test]
fn mod_test_amount() {
    let output = strings(&["", "", "", ""]);
    let fc = FIGchar::from_lines(&vec!["   ", "  x", " xx", "xx "]).unwrap();
    assert_eq!(amount(&output, &fc, '$', 0xbf), 0);

    let output = strings(&["", "", "", ""]);
    let fc = FIGchar::from_lines(&vec!["   ", "  x", " xx", "   "]).unwrap();
    assert_eq!(amount(&output, &fc, '$', 0xbf), 1);

    let output = strings(&["xxx ", "xx  ", "x   ", "    "]);
    let fc = FIGchar::from_lines(&vec!["   y", "  yy", " yyy", "yyyy"]).unwrap();
    assert_eq!(amount(&output, &fc, '$', 0xbf), 4);

    let output = strings(&["xxxx ", "xxx  ", "xx   ", "x    "]);
    let fc = FIGchar::from_lines(&vec!["   x", "  xx", " xxx", "xxxx"]).unwrap();
    assert_eq!(amount(&output, &fc, '$', 0xbf), 5);
}

#[test]
fn mod_test_amount_utf8() {
    let output = strings(&["", "", "", ""]);
    let fc = FIGchar::from_lines(&vec!["   ", "  á", " áá", "   "]).unwrap();
    assert_eq!(amount(&output, &fc, '$', 0xbf), 1);

    let output = strings(&["ááá ", "áá  ", "á   ", "    "]);
    let fc = FIGchar::from_lines(&vec!["   é", "  éé", " ééé", "éééé"]).unwrap();
    assert_eq!(amount(&output, &fc, '$', 0xbf), 4);

    let output = strings(&["áááá ", "ááá  ", "áá   ", "á    "]);
    let fc = FIGchar::from_lines(&vec!["   á", "  áá", " ááá", "áááá"]).unwrap();
    assert_eq!(amount(&output, &fc, '$', 0xbf), 5);
}

#[test]
fn test_trim() {
    let output = strings(&["12345", "abcde"]);
    assert_eq!(trim(&output, 3), strings(&["123", "abc"]));
}

#[test]
fn test_trim_utf8() {
    let output = strings(&["12345", "áéíóú"]);
    assert_eq!(trim(&output, 3), strings(&["123", "áéí"]));
}

#[test]
fn trim_beyond_width_changes_nothing() {
    let output = strings(&["12345", "abcde"]);
    assert_eq!(trim(&output, 9), strings(&["12345", "abcde"]));
}
