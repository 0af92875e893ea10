//! Characters and strings.
use catbot::text::{chars_of, ci_eq, find_ci, skip_whitespace, string_of, whitespace};

#[test]
fn whitespace_agrees_with_std() {
    for c in (0u32..0x11000).filter_map(char::from_u32) {
        assert_eq!(whitespace(c), c.is_whitespace(), "{:?}", c);
    }
}

#[test]
fn skip_whitespace_agrees_with_trim_start() {
    for s in ["", "  a b", "\u{a0}\u{2003}x ", "x", " \n\t"] {
        let v = chars_of(s);
        let k = skip_whitespace(&v, 0);
        assert_eq!(string_of(&v[k..]), s.trim_start());
    }
}

#[test]
fn case_insensitive_words() {
    assert!(ci_eq(&chars_of("STOP"), &chars_of("stop")));
    assert!(ci_eq(&chars_of("ſtop"), &chars_of("stop")));
    assert!(!ci_eq(&chars_of("stop"), &chars_of("sto")));
    assert!(find_ci(&chars_of("a HeLp b"), &chars_of("help")));
    assert!(!find_ci(&chars_of("hel p"), &chars_of("help")));
}
