use yarn_codegen::text::{
    chars_of, folded, has_no_whitespace, is_space, matches_exactly, matches_ignore_case,
    skip_whitespace, split_trimmed, string_of, trimmed_string_of,
};

fn chars(text: &str) -> Vec<char> {
    text.chars().collect()
}

#[test]
fn whitespace_is_the_unicode_property() {
    for c in [' ', '\t', '\n', '\u{b}', '\u{c}', '\r', '\u{85}', '\u{a0}', '\u{1680}', '\u{2000}',
        '\u{200a}', '\u{2028}', '\u{2029}', '\u{202f}', '\u{205f}', '\u{3000}']
    {
        assert!(is_space(c));
        assert!(c.is_whitespace());
    }
    for c in ['a', '0', '_', '\u{8}', '\u{e}', '\u{200b}', '\u{180e}', '\u{feff}'] {
        assert!(!is_space(c));
        assert!(!c.is_whitespace());
    }
}

#[test]
fn whitespace_agrees_with_std_everywhere() {
    let mut n: u32 = 0;
    while n <= 0x10FFFF {
        if let Some(c) = char::from_u32(n) {
            assert_eq!(is_space(c), c.is_whitespace());
        }
        n += 1;
    }
}

#[test]
fn strings_and_characters_convert() {
    assert_eq!(chars_of("a\u{e9}\u{3000}z"), vec!['a', '\u{e9}', '\u{3000}', 'z']);
    assert_eq!(chars_of(""), Vec::<char>::new());
    assert_eq!(string_of(&chars("hello"), 1, 4), "ell");
    assert_eq!(string_of(&chars("hello"), 2, 2), "");
    assert_eq!(trimmed_string_of(&chars("a  b c \u{a0}"), 1, 8), "b c");
    assert_eq!(trimmed_string_of(&chars(" \t "), 0, 3), "");
}

#[test]
fn case_is_folded_for_ascii_only() {
    assert_eq!(folded('A'), 'a' as u32);
    assert_eq!(folded('Z'), 'z' as u32);
    assert_eq!(folded('a'), 'a' as u32);
    assert_eq!(folded('@'), '@' as u32);
    assert_eq!(folded('['), '[' as u32);
    assert_eq!(folded('\u{c9}'), 0xc9);
    assert!(matches_ignore_case(&chars("xTiTlEy"), 1, 6, "title"));
    assert!(!matches_ignore_case(&chars("xTiTlEy"), 1, 7, "title"));
    assert!(!matches_ignore_case(&chars("tit1e"), 0, 5, "title"));
    assert!(matches_exactly(&chars("a line"), 2, 6, "line"));
    assert!(!matches_exactly(&chars("a Line"), 2, 6, "line"));
}

#[test]
fn splitting_and_skipping() {
    assert_eq!(split_trimmed(&chars("x: a , b,,c "), 2, ','), vec!["a", "b", "", "c"]);
    assert_eq!(split_trimmed(&chars(""), 0, ','), vec![""]);
    assert_eq!(split_trimmed(&chars(","), 0, ','), vec!["", ""]);
    assert_eq!(skip_whitespace(&chars("ab \t cd"), 2), 5);
    assert_eq!(skip_whitespace(&chars("ab  "), 2), 4);
    assert_eq!(skip_whitespace(&chars("ab"), 0), 0);
    assert!(has_no_whitespace(&chars("abc")));
    assert!(!has_no_whitespace(&chars("a\u{2003}c")));
    assert!(has_no_whitespace(&chars("")));
}
