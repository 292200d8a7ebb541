use rustlet::{Align, FIGfont, Smusher, Wrapper};

/// A minimal one-row font: every printable glyph is as wide as its input
/// character, the space glyph is a single hardblank, and the layout is
/// kerning only.
fn test_font() -> FIGfont {
    let mut lines = vec!["flf2a$ 1 1 2 0 0 0 64 0".to_string()];
    for code in 32u32..127 {
        if code == 32 {
            lines.push("$@".to_string());
        } else {
            lines.push(format!("{}@", char::from_u32(code).unwrap()));
        }
    }
    for code in [196u32, 215, 220, 228, 246, 252, 223] {
        lines.push(format!("{}@", char::from_u32(code).unwrap()));
    }
    FIGfont::from_lines(&lines).unwrap()
}

/// A font in the standard six-row format, carrying the real glyphs of the
/// characters these tests render.
fn standard_font() -> FIGfont {
    let mut lines = vec!["flf2a$ 6 5 16 15 0 0 24463 229".to_string()];
    for code in 32u32..127 {
        let rows: Vec<&str> = match char::from_u32(code).unwrap() {
            ' ' => vec![" $", " $", " $", " $", " $", " $"],
            'A' => vec![
                r"     _    ",
                r"    / \   ",
                r"   / _ \  ",
                r"  / ___ \ ",
                r" /_/   \_\",
                r"          ",
            ],
            '!' => vec![r" _ ", r"| |", r"| |", r"|_|", r"(_)", r"   "],
            '_' => vec![
                r"        ",
                r"        ",
                r"        ",
                r"        ",
                r"  _____ ",
                r" |_____|",
            ],
            'o' => vec![r"       ", r"  ___  ", r" / _ \ ", r"| (_) |", r" \___/ ", r"       "],
            _ => vec!["#", "#", "#", "#", "#", "#"],
        };
        for r in rows {
            lines.push(format!("{}@", r));
        }
    }
    for _code in [196u32, 215, 220, 228, 246, 252, 223] {
        for r in ["#", "#", "#", "#", "#", "#"] {
            lines.push(format!("{}@", r));
        }
    }
    lines.push("231".to_string());
    for r in [r"      ", r"  ___ ", r" / __|", r"| (__ ", r" \___|", r"  )_) "] {
        lines.push(format!("{}@", r));
    }
    lines.push("227".to_string());
    for r in [r"  /\/| ", r" |/\/_ ", r" / _` |", r"| (_| |", r" \__,_|", r"       "] {
        lines.push(format!("{}@", r));
    }
    lines.push("3232".to_string());
    for r in [
        r"   _____)",
        r"  /_ ___/",
        r"  / _ \  ",
        r" | (_) | ",
        r" $\___/$ ",
        r"         ",
    ] {
        lines.push(format!("{}@", r));
    }
    FIGfont::from_lines(&lines).unwrap()
}

#[test]
fn utf8_input() {
    let font = standard_font();
    let mut sm = Smusher::new(&font);
    sm.mode = font.layout;
    let mut wr = Wrapper::new(sm, 60);
    assert!(!wr.push_str("Ação! ಠ_ಠ").is_err());
    assert_eq!(
        wr.get(),
        vec![
            r"    _        /\/|       _    _____)      _____)",
            r"   / \   ___|/\/_  ___ | |  /_ ___/     /_ ___/",
            r"  / _ \ / __/ _` |/ _ \| |  / _ \       / _ \  ",
            r" / ___ \ (_| (_| | (_) |_| | (_) |     | (_) | ",
            r"/_/   \_\___\__,_|\___/(_)  \___/ _____ \___/  ",
            r"         )_)                     |_____|       "
        ]
    );
}

/// A font in the five-row small format, carrying the real glyphs of the
/// letters these tests render.
fn small_font() -> FIGfont {
    let mut lines = vec!["flf2a$ 5 4 14 15 0 0 18319 96".to_string()];
    for code in 32u32..127 {
        let rows: Vec<&str> = match char::from_u32(code).unwrap() {
            ' ' => vec![" $", " $", " $", " $", " $"],
            'F' => vec!["  ___ ", " | __|", " | _| ", " |_|  ", "      "],
            'K' => vec![r" _  __", r"| |/ /", r"| ' < ", r"|_|\_\", r"      "],
            'S' => vec![r"  ___ ", r" / __|", r" \__ \", r" |___/", r"      "],
            'd' => vec![r"     _ ", r"  __| |", r" / _` |", r" \__,_|", r"       "],
            'e' => vec![r"      ", r" ___  ", r"/ -_) ", r"\___| ", r"      "],
            'g' => vec![r"      ", r" __ _ ", r"/ _` |", r"\__, |", r"|___/ "],
            'h' => vec![r"  _    ", r" | |_  ", r" | ' \ ", r" |_||_|", r"       "],
            'i' => vec![r"  _ ", r" (_)", r" | |", r" |_|", r"    "],
            'l' => vec![r"  _ ", r" | |", r" | |", r" |_|", r"    "],
            'm' => vec![r"        ", r" _ __   ", r"| '  \  ", r"|_|_|_| ", r"        "],
            'n' => vec![r"       ", r" _ _   ", r"| ' \  ", r"|_||_| ", r"       "],
            'r' => vec![r"      ", r" _ _  ", r"| '_| ", r"|_|   ", r"      "],
            's' => vec![r"      ", r" ___  ", r"(_-<  ", r"/__/  ", r"      "],
            't' => vec![r"  _   ", r" | |_ ", r" |  _|", r"  \__|", r"      "],
            'u' => vec![r"       ", r"  _  _ ", r" | || |", r"  \_,_|", r"       "],
            'w' => vec![r"         ", r" __ __ __", r" \ V  V /", r"  \_/\_/ ", r"         "],
            'y' => vec![r"      ", r" _  _ ", r"| || |", r" \_, |", r" |__/ "],
            _ => vec!["#", "#", "#", "#", "#"],
        };
        for r in rows {
            lines.push(format!("{}@", r));
        }
    }
    for _code in [196u32, 215, 220, 228, 246, 252, 223] {
        for r in ["#", "#", "#", "#", "#"] {
            lines.push(format!("{}@", r));
        }
    }
    FIGfont::from_lines(&lines).unwrap()
}

#[test]
fn smushing() {
    let font = small_font();
    let mut sm = Smusher::new(&font);
    sm.mode = font.layout;
    let mut wr = Wrapper::new(sm, 60);
    assert!(!wr.push_str("Smushy").is_err());
    assert_eq!(
        wr.get(),
        vec![
            r" ___              _        ",
            r"/ __|_ __ _  _ __| |_ _  _ ",
            r"\__ \ '  \ || (_-< ' \ || |",
            r"|___/_|_|_\_,_/__/_||_\_, |",
            r"                      |__/ "
        ]
    );
}

#[test]
fn kerning() {
    let font = small_font();
    let mut sm = Smusher::new(&font);
    sm.mode = rustlet::SMUSH_KERN;
    let mut wr = Wrapper::new(sm, 60);
    assert!(!wr.push_str("Kerning").is_err());
    assert_eq!(
        wr.get(),
        vec![
            r" _  __                 _             ",
            r"| |/ / ___  _ _  _ _  (_) _ _   __ _ ",
            r"| ' < / -_)| '_|| ' \ | || ' \ / _` |",
            r"|_|\_\\___||_|  |_||_||_||_||_|\__, |",
            r"                               |___/ "
        ]
    );
}

#[test]
fn full_width() {
    let font = small_font();
    let mut sm = Smusher::new(&font);
    sm.mode = font.layout;
    sm.full_width = true;
    let mut wr = Wrapper::new(sm, 60);
    assert!(!wr.push_str("Full width").is_err());
    assert_eq!(
        wr.get(),
        vec![
            r"  ___          _   _              _      _   _     _    ",
            r" | __|  _  _  | | | |   __ __ __ (_)  __| | | |_  | |_  ",
            r" | _|  | || | | | | |   \ V  V / | | / _` | |  _| | ' \ ",
            r" |_|    \_,_| |_| |_|    \_/\_/  |_| \__,_|  \__| |_||_|",
            r"                                                        "
        ]
    );
}

fn wrap_all(wr: &mut Wrapper, tokens: &[&str]) {
    let mut flushed: Vec<Vec<String>> = Vec::new();
    for t in tokens {
        wr.wrap_str(t, &mut flushed);
    }
}

#[test]
fn line_full() {
    let font = test_font();
    let mut sm = Smusher::new(&font);
    sm.mode = font.layout;
    let mut wr = Wrapper::new(sm, 8);
    assert!(!wr.push_str("this").is_err());
    assert!(!wr.push_str(" ").is_err());
    assert!(!wr.push_str("is").is_err());
    assert!(!wr.push_str(" ").is_err());
    assert!(wr.push_str("a").is_err());
    assert_eq!(wr.get(), vec!["this is "]);
}

#[test]
fn line_wrap() {
    let font = test_font();
    let mut sm = Smusher::new(&font);
    sm.mode = font.layout;
    let mut wr = Wrapper::new(sm, 8);
    wrap_all(&mut wr, &["this", " ", "is", " ", "a", " ", "test"]);
    assert_eq!(wr.get(), vec!["a test"]);
}

#[test]
fn wrap_align_left() {
    let font = test_font();
    let mut sm = Smusher::new(&font);
    sm.mode = font.layout;
    let mut wr = Wrapper::new(sm, 12);
    wr.align = Align::Left;
    wrap_all(&mut wr, &["this", " ", "is", " ", "a", " ", "new", " ", "test"]);
    assert_eq!(wr.get(), vec!["new test"]);
}

#[test]
fn wrap_align_center() {
    let font = test_font();
    let mut sm = Smusher::new(&font);
    sm.mode = font.layout;
    let mut wr = Wrapper::new(sm, 12);
    wr.align = Align::Center;
    wrap_all(&mut wr, &["this", " ", "is", " ", "a", " ", "new", " ", "test"]);
    assert_eq!(wr.get(), vec!["  new test"]);
}

#[test]
fn wrap_align_right() {
    let font = test_font();
    let mut sm = Smusher::new(&font);
    sm.mode = font.layout;
    let mut wr = Wrapper::new(sm, 12);
    wr.align = Align::Right;
    wrap_all(&mut wr, &["this", " ", "is", " ", "a", " ", "new", " ", "test"]);
    assert_eq!(wr.get(), vec!["    new test"]);
}

#[test]
fn standard_font_char() {
    let font = standard_font();
    let mut sm = Smusher::new(&font);
    sm.mode = font.layout;
    let mut wr = Wrapper::new(sm, 60);
    assert!(!wr.push('A').is_err());
    assert_eq!(
        wr.get(),
        vec![
            r"    _    ",
            r"   / \   ",
            r"  / _ \  ",
            r" / ___ \ ",
            r"/_/   \_\",
            r"         "
        ]
    );
}

#[test]
fn flushed_lines_are_aligned() {
    // Overflowing "new" flushes the first line, aligned to the right edge
    // of the twelve-column budget.
    let font = test_font();
    let mut sm = Smusher::new(&font);
    sm.mode = font.layout;
    let mut wr = Wrapper::new(sm, 12);
    wr.align = Align::Right;
    let mut flushed: Vec<Vec<String>> = Vec::new();
    for t in ["this", " ", "is", " ", "a", " ", "new", " ", "test"] {
        wr.wrap_str(t, &mut flushed);
    }
    assert_eq!(flushed, vec![vec!["  this is a ".to_string()]]);
}

#[test]
fn full_width_is_plain_concatenation() {
    // With full width set, composing glyphs is plain concatenation of
    // their rows, whatever the layout mode says.
    for mode in [0u32, 1, 15, 64, 0xbf, 24463] {
        let font = test_font();
        let mut sm = Smusher::new(&font);
        sm.mode = mode;
        sm.full_width = true;
        sm.push_str("ab cd");
        assert_eq!(sm.get(), vec!["ab cd"]);
    }
}

#[test]
fn get_is_idempotent() {
    let font = test_font();
    let mut sm = Smusher::new(&font);
    sm.mode = font.layout;
    let mut wr = Wrapper::new(sm, 8);
    let _ = wr.push_str("this");
    let first = wr.get();
    let second = wr.get();
    assert_eq!(first, second);
}

#[test]
fn missing_glyph_renders_as_blank_fallback() {
    // A code point the font does not define renders as the blank fallback
    // glyph and never raises an error.
    let font = test_font();
    let mut sm = Smusher::new(&font);
    sm.mode = font.layout;
    sm.push_str("a");
    sm.push('\u{0CA0}');
    assert_eq!(sm.get(), vec!["a"]);
}

#[test]
fn oversized_character_is_force_inserted() {
    // A single code point wider than the budget is taken as it is, not
    // subdivided further.
    let font = standard_font();
    let mut sm = Smusher::new(&font);
    sm.mode = font.layout;
    let mut wr = Wrapper::new(sm, 4);
    let mut flushed: Vec<Vec<String>> = Vec::new();
    wr.wrap_str("A", &mut flushed);
    assert!(flushed.is_empty());
    assert_eq!(wr.len(), 9);
}

#[test]
fn hardblank_shows_as_space_only_on_get() {
    let font = test_font();
    let mut sm = Smusher::new(&font);
    sm.mode = font.layout;
    sm.push_str("a b");
    assert_eq!(sm.len(), 3);
    assert_eq!(sm.get(), vec!["a b"]);
}
