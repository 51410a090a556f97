use prover_input::text::{find, is_whitespace, starts_with, to_chars, to_text, trim, trim_end, trim_start};

fn chars(s: &str) -> Vec<char> {
    s.chars().collect()
}

fn text(s: &[char]) -> String {
    s.iter().collect()
}

#[test]
fn whitespace_agrees_with_std_on_every_char() {
    let mut code: u32 = 0;
    while code <= 0x10ffff {
        if let Some(c) = char::from_u32(code) {
            assert_eq!(is_whitespace(c), c.is_whitespace(), "U+{:04X}", code);
        }
        code += 1;
    }
}

#[test]
fn whitespace_has_twenty_five_members() {
    let mut count: u32 = 0;
    let mut code: u32 = 0;
    while code <= 0x10ffff {
        if let Some(c) = char::from_u32(code) {
            if is_whitespace(c) {
                count += 1;
            }
        }
        code += 1;
    }
    assert_eq!(count, 25);
}

#[test]
fn to_chars_gives_the_characters_in_order() {
    assert_eq!(to_chars(""), Vec::<char>::new());
    assert_eq!(to_chars("0x1f"), vec!['0', 'x', '1', 'f']);
    assert_eq!(to_chars("a\u{e9}\u{3000}\u{1f600}"), vec!['a', '\u{e9}', '\u{3000}', '\u{1f600}']);
}

#[test]
fn to_text_gives_the_string_of_the_characters() {
    assert_eq!(to_text(&[]), "");
    assert_eq!(to_text(&['0', 'x', '1', 'f']), "0x1f");
    assert_eq!(to_text(&['a', '\u{e9}', '\u{1f600}']), "a\u{e9}\u{1f600}");
}

#[test]
fn to_text_undoes_to_chars() {
    for s in ["", "secret = \"abc\"", "  \t x \r\n", "\u{2003}wide\u{3000}"] {
        assert_eq!(to_text(&to_chars(s)), s);
    }
}

const SAMPLES: [&str; 14] = [
    "",
    " ",
    "abc",
    "  abc",
    "abc  ",
    "  abc  ",
    "\t\r\n abc \n\r\t",
    " a b ",
    "\u{a0}x\u{a0}",
    "\u{2000}\u{200a}val\u{2028}\u{2029}",
    "\u{3000}\u{205f}\u{202f}\u{1680}\u{85}",
    "\u{200b}zero width is kept\u{200b}",
    "\u{b}\u{c}form\u{c}\u{b}",
    "0x01\n",
];

#[test]
fn trim_end_agrees_with_std() {
    for s in SAMPLES {
        assert_eq!(text(trim_end(&chars(s))), s.trim_end(), "{:?}", s);
    }
}

#[test]
fn trim_start_agrees_with_std() {
    for s in SAMPLES {
        assert_eq!(text(trim_start(&chars(s))), s.trim_start(), "{:?}", s);
    }
}

#[test]
fn trim_agrees_with_std() {
    for s in SAMPLES {
        assert_eq!(text(trim(&chars(s))), s.trim(), "{:?}", s);
    }
}

#[test]
fn trim_end_removes_only_the_end() {
    assert_eq!(text(trim_end(&chars("  0x01 \r\n"))), "  0x01");
}

#[test]
fn trim_of_whitespace_only_is_empty() {
    assert_eq!(text(trim(&chars(" \t\n "))), "");
    assert_eq!(text(trim_end(&chars(" \t\n "))), "");
    assert_eq!(text(trim_start(&chars(" \t\n "))), "");
}

#[test]
fn find_gives_the_first_occurrence() {
    assert_eq!(find(&chars("a=b=c"), '='), 1);
    assert_eq!(find(&chars("=x"), '='), 0);
    assert_eq!(find(&chars("abc="), '='), 3);
}

#[test]
fn find_gives_the_length_where_there_is_none() {
    assert_eq!(find(&chars("abc"), '='), 3);
    assert_eq!(find(&chars(""), '='), 0);
}

#[test]
fn starts_with_agrees_with_std() {
    let cases = [
        ("secret = 1", "secret"),
        ("secret_extra = 1", "secret"),
        ("secre", "secret"),
        ("", "secret"),
        ("secret", ""),
        ("", ""),
        ("nullifier", "secret"),
        ("sEcret", "secret"),
        ("secret", "secret"),
    ];
    for (s, p) in cases {
        assert_eq!(starts_with(&chars(s), &chars(p)), s.starts_with(p), "{:?} {:?}", s, p);
    }
}
