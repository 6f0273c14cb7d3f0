use soundtransfer::text::{
    chars_of, decimal_of, is_white_space, str_contains, str_ends_with, str_eq, str_starts_with,
    trim_range, without_quotes, word_range,
};

#[test]
fn white_space_is_that_of_the_standard_library() {
    for code in 0..=0x10FFFFu32 {
        if let Some(c) = char::from_u32(code) {
            assert_eq!(is_white_space(c), c.is_whitespace(), "{code:x}");
        }
    }
}

#[test]
fn trimming_is_that_of_the_standard_library() {
    for text in ["", " ", " a ", "\u{a0}a b\u{3000}", "звук\n", "\t\u{200b}x"] {
        let chars = chars_of(text);
        let (start, end) = trim_range(&chars);
        let trimmed: String = chars[start..end].iter().collect();
        assert_eq!(trimmed, text.trim());
    }
}

#[test]
fn words_are_those_of_the_standard_library() {
    for text in ["", "  ", "one", " one  two ", "\u{2028}один\u{85}два"] {
        let chars = chars_of(text);
        let mut words = text.split_whitespace();
        let (start, end) = word_range(&chars, 0);
        let first: String = chars[start..end].iter().collect();
        assert_eq!(first, words.next().unwrap_or(""));
        let (start, end) = word_range(&chars, end);
        let second: String = chars[start..end].iter().collect();
        assert_eq!(second, words.next().unwrap_or(""));
    }
}

#[test]
fn searching_is_that_of_the_standard_library() {
    let texts = ["", "a", "ab", "aab", "abab", "звук", "st.exe", "dir/st.exe"];
    for s in texts {
        for part in texts {
            assert_eq!(str_contains(s, part), s.contains(part));
            assert_eq!(str_starts_with(s, part), s.starts_with(part));
            assert_eq!(str_ends_with(s, part), s.ends_with(part));
            assert_eq!(str_eq(s, part), s == part);
        }
    }
}

#[test]
fn numbers_are_written_in_decimal() {
    for n in [0u64, 7, 9, 10, 99, 100, 48101, u64::MAX] {
        assert_eq!(decimal_of(n), n.to_string());
    }
}

#[test]
fn quotes_become_apostrophes() {
    for text in ["", "\"", "a\"b\"\"c", "без кавычек"] {
        assert_eq!(without_quotes(text), text.replace('"', "'"));
    }
}
