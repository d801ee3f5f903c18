use debian_installer_builder::text::{
    char_is_whitespace, ends_with, found_at, found_in, replace_all, split_lines, split_words,
    starts_with, to_chars, to_text, trimmed_start,
};

const SAMPLES: [&str; 16] = [
    "",
    "\n",
    "\r\n",
    "\r",
    "a",
    "a\n",
    "a\r",
    "a\r\r\nb",
    "a\n\nb\n",
    " a\tb  c ",
    "\u{2003}x\u{85}y\u{3000}",
    "abc  def\nghi",
    "aaaa",
    "\u{e4}\u{1f600}\u{e4}",
    "--- quiet --- quiet",
    "timeout 0\ntimeout 00",
];

fn joined(parts: &[Vec<char>]) -> Vec<String> {
    parts.iter().map(|p| p.iter().collect()).collect()
}

#[test]
fn white_space_is_that_of_unicode() {
    for n in 0..=0x10ffff {
        if let Some(c) = char::from_u32(n) {
            assert_eq!(char_is_whitespace(c), c.is_whitespace(), "{n:x}");
        }
    }
}

#[test]
fn lines_are_those_of_the_standard_library() {
    for s in SAMPLES {
        let expected: Vec<String> = s.lines().map(String::from).collect();
        assert_eq!(joined(&split_lines(s)), expected, "{s:?}");
    }
}

#[test]
fn fields_are_those_of_the_standard_library() {
    for s in SAMPLES {
        let expected: Vec<String> = s.split_whitespace().map(String::from).collect();
        assert_eq!(joined(&split_words(&to_chars(s))), expected, "{s:?}");
    }
}

#[test]
fn leading_white_space_is_trimmed_as_the_standard_library_does() {
    for s in SAMPLES {
        assert_eq!(to_text(trimmed_start(&to_chars(s))), s.trim_start(), "{s:?}");
    }
}

#[test]
fn searches_are_those_of_the_standard_library() {
    for s in SAMPLES {
        for p in SAMPLES {
            let (text, pat) = (to_chars(s), to_chars(p));
            assert_eq!(starts_with(&text, &pat), s.starts_with(p), "{s:?} {p:?}");
            assert_eq!(ends_with(&text, &pat), s.ends_with(p), "{s:?} {p:?}");
            assert_eq!(found_in(&text, &pat), s.contains(p), "{s:?} {p:?}");
        }
    }
    assert!(found_at(&to_chars("abc"), &to_chars("bc"), 1));
    assert!(!found_at(&to_chars("abc"), &to_chars("bc"), 2));
    assert!(!found_at(&to_chars("abc"), &to_chars("c"), usize::MAX));
}

#[test]
fn replacements_are_those_of_the_standard_library() {
    for s in SAMPLES {
        for p in ["a", "aa", "aaa", "--- quiet", "timeout 0", "\u{e4}", "\n"] {
            for w in ["", "a", "xyz", "timeout 10"] {
                assert_eq!(replace_all(s, p, w), s.replace(p, w), "{s:?} {p:?} {w:?}");
            }
        }
    }
}
