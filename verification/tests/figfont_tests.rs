use rustlet::{char_from_u32, u32_from_str, Error, FIGchar, FIGfont};

#[test]
fn test_display() {
    let f = FIGchar::from_lines(&vec!["1  ", " 2 ", "  3"]).unwrap();
    assert_eq!(f.text(), "1  \n 2 \n  3\n");
}

#[test]
fn test_char_from_u32() {
    assert_eq!(char_from_u32(0x0041).unwrap(), 'A');
    assert_eq!(char_from_u32(0x00C1).unwrap(), 'Á');
}

#[test]
fn test_u32_from_str() {
    assert!(matches!(u32_from_str("0x0041"), Ok(0x41)));
    assert!(matches!(u32_from_str("0x00C1"), Ok(0xC1)));
    assert!(matches!(u32_from_str("  0x41"), Ok(0x41)));
    assert!(matches!(u32_from_str("0X0041"), Ok(0x41)));
    assert!(matches!(u32_from_str("-0x100"), Ok(1)));
    assert!(matches!(u32_from_str("-5"), Ok(1)));
    assert!(u32_from_str("foobar").is_err());
    assert!(u32_from_str("").is_err());
}

/// A font in the standard six-row format: the glyphs the assertions look at
/// carry their real shapes, every other required glyph is a placeholder.
fn standard_font_lines() -> Vec<String> {
    let mut lines = vec!["flf2a$ 6 5 16 15 0 0 24463 229".to_string()];
    for code in 32u32..127 {
        let rows: Vec<&str> = match code {
            32 => vec![" $", " $", " $", " $", " $", " $"],
            65 => vec![
                r"     _    ",
                r"    / \   ",
                r"   / _ \  ",
                r"  / ___ \ ",
                r" /_/   \_\",
                r"          ",
            ],
            _ => vec!["#", "#", "#", "#", "#", "#"],
        };
        for r in rows {
            lines.push(format!("{}@", r));
        }
    }
    for code in [196u32, 215, 220, 228, 246, 252, 223] {
        let rows: Vec<&str> = match code {
            223 => vec![
                r"   ___ ",
                r"  / _ \",
                r" | |/ /",
                r" | |\ \",
                r" | ||_/",
                r" |_|   ",
            ],
            _ => vec!["#", "#", "#", "#", "#", "#"],
        };
        for r in rows {
            lines.push(format!("{}@", r));
        }
    }
    lines.push("3232".to_string());
    for r in [
        r"   _____)",
        r"  /_ ___/",
        r"  / _ \  ",
        r" | (_) | ",
        r" $\___/$ ",
        r"         ",
    ] {
        lines.push(format!("{}@", r));
    }
    lines
}

#[test]
fn test_font_load() {
    let font = FIGfont::from_lines(&standard_font_lines()).unwrap();

    let ch = ' ';
    assert_eq!(font.get(ch).get(), vec![r" $", r" $", r" $", r" $", r" $", r" $"]);

    let ch = 'A';
    assert_eq!(
        font.get(ch).get(),
        vec![
            r"     _    ",
            r"    / \   ",
            r"   / _ \  ",
            r"  / ___ \ ",
            r" /_/   \_\",
            r"          "
        ]
    );

    let ch = char::from_u32(223).unwrap();
    assert_eq!(
        font.get(ch).get(),
        vec![r"   ___ ", r"  / _ \", r" | |/ /", r" | |\ \", r" | ||_/", r" |_|   "]
    );

    let ch = char::from_u32(3232).unwrap();
    assert_eq!(
        font.get(ch).get(),
        vec![
            r"   _____)",
            r"  /_ ___/",
            r"  / _ \  ",
            r" | (_) | ",
            r" $\___/$ ",
            r"         "
        ]
    );
}

#[test]
fn test_get_tab() {
    let font = FIGfont::from_lines(&standard_font_lines()).unwrap();

    let ch = '\t';
    assert_eq!(font.get(ch).get(), vec![r" $", r" $", r" $", r" $", r" $", r" $"]);
}

#[test]
fn test_char_line_width() {
    let c = FIGchar::from_lines(&vec!["123", "456", "789"]);
    assert!(c.is_ok());

    let c = FIGchar::from_lines(&vec!["123", "456", "7890"]);
    assert!(matches!(c, Err(Error::FontFormat(_))));
}

#[test]
fn wrong_magic_is_a_format_error() {
    let lines = vec!["xlf2a$ 1 1 2 0 0 0 64 0".to_string()];
    assert!(matches!(FIGfont::from_lines(&lines), Err(Error::FontFormat(_))));
}

#[test]
fn short_header_is_a_format_error() {
    let lines = vec!["flf2a$ 1 1".to_string()];
    assert!(matches!(FIGfont::from_lines(&lines), Err(Error::FontFormat(_))));
}

#[test]
fn bad_header_field_is_a_parse_error() {
    let lines = vec!["flf2a$ abc 1 2 0 0 0 64 0".to_string()];
    match FIGfont::from_lines(&lines) {
        Err(Error::Parse(t)) => assert_eq!(t, "abc"),
        other => panic!("expected a parse error, got {:?}", other),
    }
}

#[test]
fn unreadable_line_is_an_io_error() {
    let mut lines: Vec<Option<String>> = vec![None];
    assert!(matches!(FIGfont::load(&lines), Err(Error::Io)));
    lines = vec![Some("flf2a$ 1 1 2 0 2 0 64 0".to_string()), Some("comment".to_string()), None];
    assert!(matches!(FIGfont::load(&lines), Err(Error::Io)));
}

#[test]
fn surrogate_code_tag_is_rejected() {
    let mut lines = vec!["flf2a$ 1 1 2 0 0 0 64 0".to_string()];
    for code in 32u32..127 {
        lines.push(format!("{}@", char::from_u32(code).unwrap()));
    }
    for code in [196u32, 215, 220, 228, 246, 252, 223] {
        lines.push(format!("{}@", char::from_u32(code).unwrap()));
    }
    lines.push("0xD800".to_string());
    lines.push("x@".to_string());
    assert!(matches!(FIGfont::from_lines(&lines), Err(Error::CodeTag(0xD800))));
}

#[test]
fn unreadable_glyph_line_loads_as_blank_rows() {
    // A line that cannot be read blanks its glyph instead of failing the
    // whole load: a deliberate leniency for slightly malformed fonts.
    let mut lines: Vec<Option<String>> = vec![Some("flf2a$ 1 1 2 0 0 0 64 0".to_string())];
    for code in 32u32..127 {
        if code == 65 {
            lines.push(None);
        } else {
            lines.push(Some(format!("{}@", char::from_u32(code).unwrap())));
        }
    }
    for code in [196u32, 215, 220, 228, 246, 252, 223] {
        lines.push(Some(format!("{}@", char::from_u32(code).unwrap())));
    }
    let font = FIGfont::load(&lines).unwrap();
    assert_eq!(font.get('A').get(), vec![""]);
    assert_eq!(font.get('B').get(), vec!["B"]);
}

#[test]
fn negative_code_tag_maps_to_placeholder() {
    let mut lines = vec!["flf2a$ 1 1 2 0 0 0 64 0".to_string()];
    for code in 32u32..127 {
        lines.push(format!("{}@", char::from_u32(code).unwrap()));
    }
    for code in [196u32, 215, 220, 228, 246, 252, 223] {
        lines.push(format!("{}@", char::from_u32(code).unwrap()));
    }
    lines.push("-17  unused slot".to_string());
    lines.push("!@".to_string());
    let font = FIGfont::from_lines(&lines).unwrap();
    assert_eq!(font.get(char::from_u32(1).unwrap()).get(), vec!["!"]);
}
