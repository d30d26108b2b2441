use codex_console::decimal::{parse_i64, signed_text, unsigned_text};
use codex_console::phrase::{
    first_non_empty, first_non_empty_owned, normalize_title, summarize_text,
};
use codex_console::search::{
    ascii_lower_chars, contains, eq_ignore_ascii_case, find_from, strip_prefix, strip_suffix,
    to_ascii_uppercase,
};
use codex_console::text::{
    blank, chars_of, fold_whitespace, is_whitespace, join, join_lines, lines, same_text, trim,
    trim_end_char,
};

fn texts(items: &[&str]) -> Vec<String> {
    items.iter().map(|item| item.to_string()).collect()
}

#[test]
fn white_space_is_that_of_unicode() {
    for n in 0..=0x10ffffu32 {
        if let Some(c) = char::from_u32(n) {
            assert_eq!(is_whitespace(c), c.is_whitespace());
        }
    }
}

#[test]
fn trimming_takes_white_space_from_both_ends() {
    assert_eq!(trim(" \t a b\u{3000}\n"), "a b");
    assert_eq!(trim(trim("  x ")), "x");
    assert_eq!(trim("\u{a0}"), "");
    assert_eq!(trim_end_char("https://a.b///", '/'), "https://a.b");
    assert_eq!(trim_end_char("///", '/'), "");
    assert!(blank(" \r\n"));
    assert!(!blank(" . "));
}

#[test]
fn lines_end_at_line_feeds() {
    assert_eq!(lines("a\r\nb\n\nc"), texts(&["a", "b", "", "c"]));
    assert_eq!(lines("a\n"), texts(&["a"]));
    assert_eq!(lines("a\r"), texts(&["a\r"]));
    assert_eq!(lines(""), texts(&[]));
    for text in ["", "\n", "\r\n", "a\r\r\nb\r", "\n\n", "x\ny\n"] {
        assert_eq!(lines(text), texts(&text.lines().collect::<Vec<_>>()));
    }
}

#[test]
fn files_are_read_line_by_line_as_they_were_made() {
    let list = texts(&["one", "", "{\"a\":1}"]);
    assert_eq!(join_lines(&list), "one\n\n{\"a\":1}\n");
    assert_eq!(lines(&join_lines(&list)), list);
    assert_eq!(join_lines(&Vec::new()), "");
    assert_eq!(join(&list, "; "), "one; ; {\"a\":1}");
    assert_eq!(join(&Vec::new(), "; "), "");
}

#[test]
fn texts_are_the_same_character_by_character() {
    assert!(same_text("äb", "äb"));
    assert!(!same_text("a", "ab"));
    assert!(!same_text("ab", "a"));
    assert!(!same_text("a", "A"));
    assert!(same_text("", ""));
}

#[test]
fn folding_leaves_one_space_between_words() {
    let folded: String = fold_whitespace("  a \t\n b  ").iter().collect();
    assert_eq!(folded, "a b");
    let again: String = fold_whitespace(&folded).iter().collect();
    assert_eq!(again, folded);
    assert!(fold_whitespace(" \n ").is_empty());
}

#[test]
fn summaries_are_cut_and_stay_cut() {
    assert_eq!(summarize_text("one  two\nthree", 7), "one two...");
    assert_eq!(summarize_text("one two", 7), "one two");
    assert_eq!(summarize_text(" \n ", 7), "");
    assert_eq!(summarize_text("ab", 0), "...");
    let once = summarize_text("äöü äöü äöü", 5);
    assert_eq!(once, "äöü ä...");
    assert_eq!(summarize_text(&once, 5), once);
}

#[test]
fn summaries_stay_the_same_when_cut_behind_a_word() {
    let once = summarize_text("one two", 4);
    assert_eq!(once, "one ...");
    assert_eq!(summarize_text(&once, 4), once);
}

#[test]
fn titles_have_at_most_120_characters() {
    let long = "x".repeat(121);
    assert_eq!(normalize_title(&long), format!("{}...", "x".repeat(120)));
    let fitting = "y".repeat(120);
    assert_eq!(normalize_title(&fitting), fitting);
    assert_eq!(normalize_title(" a\n\nb "), "a b");
}

#[test]
fn the_first_text_that_says_something_is_taken() {
    assert_eq!(first_non_empty(&[None, Some("  "), Some(" b "), Some("c")]), Some("b"));
    assert_eq!(first_non_empty(&[None, Some("")]), None);
    assert_eq!(first_non_empty(&[]), None);
    assert_eq!(
        first_non_empty_owned(&[Some(" ".to_string()), None, Some(" z\n".to_string())]),
        "z"
    );
    assert_eq!(first_non_empty_owned(&[None]), "");
}

#[test]
fn only_ascii_letters_change_their_case() {
    assert_eq!(to_ascii_uppercase("aZ-é9"), "AZ-é9");
    let lower: String = ascii_lower_chars("AZ[@É").iter().collect();
    assert_eq!(lower, "az[@É");
    assert!(eq_ignore_ascii_case("JsonL", "jSONl"));
    assert!(!eq_ignore_ascii_case("é", "É"));
    assert!(!eq_ignore_ascii_case("json", "jsonl"));
}

#[test]
fn texts_are_found_in_texts() {
    let hay = chars_of("abcabc");
    assert_eq!(find_from(&hay, &chars_of("bc"), 0), Some(1));
    assert_eq!(find_from(&hay, &chars_of("bc"), 2), Some(4));
    assert_eq!(find_from(&hay, &chars_of("bc"), 5), None);
    assert_eq!(find_from(&hay, &chars_of(""), 9), None);
    assert!(contains(&hay, "cab"));
    assert!(contains(&hay, ""));
    assert!(!contains(&hay, "cb"));
    assert_eq!(strip_prefix("Bearer x", "Bearer "), Some("x"));
    assert_eq!(strip_prefix("bearer x", "Bearer "), None);
    assert_eq!(strip_suffix("/v1/api/status", "/api/status"), Some("/v1"));
    assert_eq!(strip_suffix("/api", "/api/status"), None);
}

#[test]
fn numbers_are_read_as_they_were_written() {
    assert_eq!(unsigned_text(0), "0");
    assert_eq!(unsigned_text(u64::MAX), u64::MAX.to_string());
    assert_eq!(signed_text(-120), "-120");
    for n in [0, 7, -7, 10, -10, i64::MAX, i64::MIN] {
        assert_eq!(signed_text(n), n.to_string());
        assert_eq!(parse_i64(&signed_text(n)), Some(n));
    }
}

#[test]
fn numbers_are_read_with_one_sign_and_within_64_bits() {
    for text in [
        "", "+", "-", "+5", "--5", "-+5", "007", " 5", "5 ", "5.0", "9223372036854775807",
        "9223372036854775808", "-9223372036854775808", "-9223372036854775809",
        "99999999999999999999999", "000000000000000000000000000001", "٣",
    ] {
        assert_eq!(parse_i64(text), text.parse::<i64>().ok(), "{}", text);
    }
}
