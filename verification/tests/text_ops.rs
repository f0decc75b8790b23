use marrow_run::text::{
    contains, ends_with, index_of, join, length, replace, simple_lowercase, simple_uppercase,
    slice, split, starts_with, to_lower, to_upper, trim, TextError,
};

#[test]
fn length_counts_chars() {
    assert_eq!(length(""), 0);
    assert_eq!(length("é文字a"), 4);
}

#[test]
fn trim_matches_std() {
    for text in ["", "  a b \t", "\u{3000}x\u{85}", "   ", "no"] {
        assert_eq!(trim(text), text.trim());
    }
}

#[test]
fn search_by_chars() {
    assert!(contains("hello", "ll"));
    assert!(contains("hello", ""));
    assert!(!contains("hello", "lo!"));
    assert!(starts_with("hello", "he"));
    assert!(!starts_with("he", "hello"));
    assert!(ends_with("hello", "llo"));
    assert!(!ends_with("hello", "he"));
    assert_eq!(index_of("aé文字é", "é"), Ok(1));
    assert_eq!(index_of("abc", ""), Ok(0));
    assert_eq!(index_of("abc", "z"), Err(TextError::NoMatch));
}

#[test]
fn slice_by_chars_with_checks() {
    assert_eq!(slice("é文字ab", 1, 3), Ok("文字".to_string()));
    assert_eq!(slice("abc", 3, 3), Ok(String::new()));
    assert_eq!(slice("abc", -1, 2), Err(TextError::NegativeIndex));
    assert_eq!(slice("abc", 2, 1), Err(TextError::SliceStartAfterEnd));
    assert_eq!(slice("abc", 1, 4), Err(TextError::SliceOutsideText));
}

#[test]
fn split_replace_join_match_std() {
    let cases = [("a,b,,c", ","), ("", ","), ("abc", ""), ("", ""), ("aaa", "aa"), ("x--y", "--")];
    for (text, sep) in cases {
        let expected: Vec<String> = text.split(sep).map(str::to_string).collect();
        assert_eq!(split(text, sep), expected);
        assert_eq!(replace(text, sep, "+"), text.replace(sep, "+"));
        assert_eq!(join(&expected, sep), expected.join(sep));
    }
}

#[test]
fn simple_case_mappings() {
    assert_eq!(to_upper("abc é ß"), "ABC É ß");
    assert_eq!(to_lower("ABC İ Σ"), "abc i σ");
    assert_eq!(simple_uppercase('\u{1F80}'), '\u{1F88}');
    assert_eq!(simple_uppercase('\u{1FB3}'), '\u{1FBC}');
    assert_eq!(simple_uppercase('ß'), 'ß');
    assert_eq!(simple_lowercase('\u{130}'), 'i');
    assert_eq!(simple_uppercase('1'), '1');
}

#[test]
fn text_error_messages() {
    assert_eq!(TextError::NoMatch.message(), "`std::text::indexOf` found no match");
}

#[test]
fn joining_a_split_restores_the_text() {
    for (text, sep) in [("a,b,,c", ","), ("abc", ""), ("", ""), ("aaa", "aa"), ("é文字", "文")] {
        assert_eq!(join(&split(text, sep), sep), text);
    }
}
