use rustlet::strsmush::{amount, get_pair, smush};
use rustlet::CharExt;

#[test]
fn strsmush_test_char_len() {
    assert_eq!("aeiou".char_len(), 5);
    assert_eq!("áéíóú".char_len(), 5);
}

#[test]
fn test_char_nth() {
    assert_eq!("aeiou".char_nth(2), 'i');
    assert_eq!("áéíóú".char_nth(2), 'í');
}

#[test]
fn test_get_pair() {
    assert_eq!(get_pair("    ", "    ", 2), None);
    assert_eq!(get_pair("abc ", " xyz", 1), None);
    assert_eq!(get_pair("abc ", " xyz", 2), None);
    assert_eq!(get_pair("abc ", " xyz", 3), Some(('c', 'x')));
    assert_eq!(get_pair("abc   ", " x", 5), Some(('c', 'x')));
    assert_eq!(get_pair("a ", " xyzwt", 3), Some(('a', 'x')));
    assert_eq!(get_pair("a", "      x", 6), None);
    assert_eq!(get_pair("a", "      x", 7), Some(('a', 'x')));
    assert_eq!(get_pair("", "       x", 7), None);
}

#[test]
fn strsmush_test_amount() {
    assert_eq!(amount("", "", '$', 0xbf), 0);

    assert_eq!(amount("", "    ", '$', 0xbf), 4);
    assert_eq!(amount("", "   y", '$', 0xbf), 3);

    assert_eq!(amount("    ", "    ", '$', 0xbf), 8);
    assert_eq!(amount("x   ", "    ", '$', 0xbf), 7);
    assert_eq!(amount("xx  ", "    ", '$', 0xbf), 6);
    assert_eq!(amount("xxx ", "    ", '$', 0xbf), 5);
    assert_eq!(amount("xxxx", "    ", '$', 0xbf), 4);
    assert_eq!(amount("XXXX", "    ", '$', 0xbf), 4);

    assert_eq!(amount("    ", "   y", '$', 0xbf), 7);
    assert_eq!(amount("x   ", "   y", '$', 0xbf), 6);
    assert_eq!(amount("xx  ", "   y", '$', 0xbf), 5);
    assert_eq!(amount("xxx ", "   y", '$', 0xbf), 4);
    assert_eq!(amount("xxxx", "   y", '$', 0xbf), 3);

    assert_eq!(amount("    ", "  yy", '$', 0xbf), 6);
    assert_eq!(amount("x   ", "  yy", '$', 0xbf), 5);
    assert_eq!(amount("xx  ", "  yy", '$', 0xbf), 4);
    assert_eq!(amount("xxx ", "  yy", '$', 0xbf), 3);
    assert_eq!(amount("xxxx", "  yy", '$', 0xbf), 2);

    assert_eq!(amount("    ", " yyy", '$', 0xbf), 5);
    assert_eq!(amount("x   ", " yyy", '$', 0xbf), 4);
    assert_eq!(amount("xx  ", " yyy", '$', 0xbf), 3);
    assert_eq!(amount("xxx ", " yyy", '$', 0xbf), 2);
    assert_eq!(amount("xxxx", " yyy", '$', 0xbf), 1);

    assert_eq!(amount("    ", "yyyy", '$', 0xbf), 4);
    assert_eq!(amount("x   ", "yyyy", '$', 0xbf), 3);
    assert_eq!(amount("xx  ", "yyyy", '$', 0xbf), 2);
    assert_eq!(amount("xxx ", "yyyy", '$', 0xbf), 1);
    assert_eq!(amount("xxxx", "yyyy", '$', 0xbf), 0);

    assert_eq!(amount("x", "y", '$', 0xbf), 0);
    assert_eq!(amount("x", "x", '$', 0xbf), 1); // equal-character rule
    assert_eq!(amount("<", ">", '$', 0xbf), 0);
    assert_eq!(amount("_", "/", '$', 0xbf), 1); // underscore rule
    assert_eq!(amount("/", "_", '$', 0xbf), 1); // underscore rule
    assert_eq!(amount("[", "{", '$', 0xbf), 1); // hierarchy rule
    assert_eq!(amount("[", "]", '$', 0xbf), 1); // opposite-pair rule
    assert_eq!(amount(">", "<", '$', 0xbf), 1); // big-X rule
    assert_eq!(amount("[ ", " {", '$', 0xbf), 3); // hierarchy rule plus spacing
}

#[test]
fn strsmush_test_amount_utf8() {
    assert_eq!(amount("", "   é", '$', 0xbf), 3);
    assert_eq!(amount("á   ", "    ", '$', 0xbf), 7);
    assert_eq!(amount("áá  ", "    ", '$', 0xbf), 6);
    assert_eq!(amount("á   ", "   é", '$', 0xbf), 6);
    assert_eq!(amount("áá  ", "   é", '$', 0xbf), 5);
    assert_eq!(amount("á   ", "  éé", '$', 0xbf), 5);
    assert_eq!(amount("áá  ", "  éé", '$', 0xbf), 4);
}

#[test]
fn strsmush_test_smush() {
    assert_eq!(smush("123! ", "xy", 1, '$', 0xbf), "123!xy".to_string());
    assert_eq!(smush("123> ", "<y", 2, '$', 0xbf), "123Xy".to_string());
    assert_eq!(smush("123! ", "   xy", 5, '$', 0xbf), "123xy".to_string());
    assert_eq!(smush("123/ ", "   /y", 5, '$', 0xbf), "123/y".to_string());
    assert_eq!(smush("", "   y", 3, '$', 0xbf), "y".to_string());
    assert_eq!(smush("", "      ", 1, '$', 0xbf), "     ".to_string());
}

#[test]
fn strsmush_test_smush_utf8() {
    assert_eq!(smush("áéí! ", "óú", 1, '$', 0xbf), "áéí!óú".to_string());
    assert_eq!(smush("", "   á", 3, '$', 0xbf), "á".to_string());
}

#[test]
fn smush_output_never_shrinks() {
    // The merged row keeps at least the width of the left row, and at
    // least what remains of the right row past the overlap.
    let cases = [("abc", "def", 0), ("abc ", " de", 2), ("ab", "cdefg", 1), ("", "xyz", 2)];
    for (s1, s2, amt) in cases.iter() {
        let merged = smush(s1, s2, *amt, '$', 0xbf);
        assert!(merged.chars().count() >= s1.chars().count());
        assert!(merged.chars().count() + amt >= s2.chars().count());
    }
}
