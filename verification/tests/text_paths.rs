use lclt_translator::paths::{
    eq_ignore_ascii_case, extension, normalize_filename_prefix, normalize_rel_path,
};
use lclt_translator::text::{
    blank, contains_str, decimal, join, lines, parse_usize, replace_char, split_char, trim,
};

#[test]
fn decimal_writes_numbers_in_base_ten() {
    assert_eq!(decimal(0), "0");
    assert_eq!(decimal(7), "7");
    assert_eq!(decimal(1000), "1000");
    assert_eq!(decimal(usize::MAX), usize::MAX.to_string());
}

#[test]
fn parse_usize_reads_digits_only() {
    assert_eq!(parse_usize("42"), Some(42));
    assert_eq!(parse_usize("007"), Some(7));
    assert_eq!(parse_usize(""), None);
    assert_eq!(parse_usize("4a"), None);
    assert_eq!(parse_usize("-1"), None);
    assert_eq!(parse_usize("99999999999999999999999999"), None);
}

#[test]
fn trim_and_blank_follow_unicode_white_space() {
    assert_eq!(trim("  a b \t\n"), "a b");
    assert_eq!(trim("\u{3000}x\u{3000}"), "x");
    assert!(blank(" \t\r\n"));
    assert!(!blank(" x "));
}

#[test]
fn lines_split_on_newlines_and_drop_carriage_returns() {
    assert_eq!(lines("a\nb\r\nc"), vec!["a", "b", "c"]);
    assert_eq!(lines("a\n"), vec!["a"]);
    assert_eq!(lines(""), Vec::<String>::new());
    assert_eq!(lines("\n\nx"), vec!["", "", "x"]);
}

#[test]
fn split_join_and_replace() {
    assert_eq!(split_char("a/b//c", '/'), vec!["a", "b", "", "c"]);
    assert_eq!(split_char("", '/'), vec![""]);
    let parts = vec!["x".to_string(), "y".to_string()];
    assert_eq!(join(&parts, "|"), "x|y");
    assert_eq!(replace_char("a\\b\\c", '\\', '/'), "a/b/c");
    assert_eq!(lclt_translator::text::concat("ab", "cd"), "abcd");
    assert!(contains_str("hello world", "o w"));
    assert!(!contains_str("hello", "world"));
}

#[test]
fn extension_of_file_names() {
    assert_eq!(extension("file.json"), Some("json".to_string()));
    assert_eq!(extension("archive.tar.gz"), Some("gz".to_string()));
    assert_eq!(extension(".hidden"), None);
    assert_eq!(extension("noext"), None);
    assert_eq!(extension("trailing."), Some("".to_string()));
}

#[test]
fn ascii_case_is_ignored_only_for_ascii() {
    assert!(eq_ignore_ascii_case("JSON", "json"));
    assert!(eq_ignore_ascii_case("TxT", "tXt"));
    assert!(!eq_ignore_ascii_case("json", "jsn"));
    assert!(!eq_ignore_ascii_case("Ä", "ä"));
}

#[test]
fn language_prefixes_are_stripped_repeatedly() {
    assert_eq!(normalize_filename_prefix("KR_JP_EN_Story.json"), "Story.json");
    assert_eq!(normalize_filename_prefix("JP_Text.json"), "Text.json");
    assert_eq!(normalize_filename_prefix("CN_Text.json"), "CN_Text.json");
    assert_eq!(normalize_filename_prefix("KR_"), "");
}

#[test]
fn relative_paths_are_normalised_per_segment() {
    assert_eq!(normalize_rel_path("KR_dir\\JP_file.json"), "dir/file.json");
    assert_eq!(normalize_rel_path("a/EN_b/KR_c.json"), "a/b/c.json");
    assert_eq!(normalize_rel_path(""), "");
}
