use netspectre_core::listing::stable_order;
use netspectre_core::pattern::{capture, group_text, group_text_or_empty};
use netspectre_core::text::{
    chars_of, concat2, contains, contains_chars, decimal_string, join, parse_decimal, rank,
    rank_chars, scan_dots, split_ranges, str_eq, trim, trim_range, Rank,
};

fn chars(s: &str) -> Vec<char> {
    s.chars().collect()
}

#[test]
fn chars_of_gives_one_element_per_scalar_value() {
    assert_eq!(chars_of(""), Vec::<char>::new());
    assert_eq!(chars_of("a\u{00e9}\u{1f600}z"), vec!['a', '\u{00e9}', '\u{1f600}', 'z']);
}

#[test]
fn str_eq_compares_texts() {
    assert!(str_eq("", ""));
    assert!(str_eq("abc", "abc"));
    assert!(!str_eq("abc", "abd"));
    assert!(!str_eq("abc", "ab"));
    assert!(!str_eq("", "a"));
    assert!(str_eq("\u{00e9}", "\u{00e9}"));
    assert!(!str_eq("\u{00e9}", "e"));
}

#[test]
fn contains_finds_substrings() {
    assert!(contains("espressif inc.", "espressif"));
    assert!(contains("abc", ""));
    assert!(contains("", ""));
    assert!(contains("abc", "abc"));
    assert!(contains("abc", "c"));
    assert!(contains("aab", "ab"));
    assert!(!contains("abc", "abcd"));
    assert!(!contains("", "a"));
    assert!(!contains("abc", "ac"));
    assert!(contains_chars(&chars("x\u{00e9}y"), &chars("\u{00e9}y")));
}

#[test]
fn trim_removes_white_space_at_both_ends() {
    assert_eq!(trim("  a b \t\r\n"), "a b");
    assert_eq!(trim("a"), "a");
    assert_eq!(trim(""), "");
    assert_eq!(trim(" \n "), "");
    assert_eq!(trim("\u{00a0}\u{3000}x\u{2003}"), "x");
    assert_eq!(trim("\u{200b}x"), "\u{200b}x");
    assert_eq!(trim_range(&chars("ab  cd  ef"), 2, 8), (4, 6));
    assert_eq!(trim_range(&chars("ab  cd  ef"), 2, 4), (4, 4));
}

#[test]
fn rank_orders_like_string_comparison() {
    let samples = ["", "a", "ab", "b", "B", "10.0.0.10", "10.0.0.2", "\u{00e9}", "z", "a\u{0}"];
    for x in samples {
        for y in samples {
            let expected = if x < y {
                Rank::Before
            } else if x == y {
                Rank::Same
            } else {
                Rank::After
            };
            assert_eq!(rank(x, y), expected);
            assert_eq!(rank_chars(&chars(x), &chars(y)), expected);
        }
    }
}

#[test]
fn decimal_string_writes_numbers() {
    assert_eq!(decimal_string(0), "0");
    assert_eq!(decimal_string(7), "7");
    assert_eq!(decimal_string(10), "10");
    assert_eq!(decimal_string(443), "443");
    assert_eq!(decimal_string(65535), "65535");
    for n in [1u16, 9, 99, 100, 1009, 27017] {
        assert_eq!(decimal_string(n), n.to_string());
    }
}

#[test]
fn concat2_joins_two_strings() {
    assert_eq!(concat2("Server: ", "nginx"), "Server: nginx");
    assert_eq!(concat2("", ""), "");
}

#[test]
fn parse_decimal_reads_unsigned_numbers() {
    let v = chars("x+0254y");
    assert_eq!(parse_decimal(&v, 1, 6, 255), Some(254));
    assert_eq!(parse_decimal(&v, 2, 6, 255), Some(254));
    assert_eq!(parse_decimal(&v, 2, 6, 253), None);
    assert_eq!(parse_decimal(&v, 1, 2, 255), None);
    assert_eq!(parse_decimal(&v, 3, 3, 255), None);
    assert_eq!(parse_decimal(&v, 0, 6, 255), None);
    assert_eq!(parse_decimal(&v, 2, 7, 255), None);
    let big = chars("4294967295");
    assert_eq!(parse_decimal(&big, 0, 10, u32::MAX), Some(u32::MAX));
    let bigger = chars("4294967296");
    assert_eq!(parse_decimal(&bigger, 0, 10, u32::MAX), None);
    let long = chars("99999999999999999999999999");
    assert_eq!(parse_decimal(&long, 0, long.len(), u32::MAX), None);
    for s in ["0", "1", "+1", "-1", "1 ", " 1", "", "+", "007", "256", "\u{0661}"] {
        let v = chars(s);
        assert_eq!(parse_decimal(&v, 0, v.len(), 255), s.parse::<u8>().ok().map(u32::from));
    }
}

#[test]
fn scan_dots_counts_and_finds_the_last() {
    assert_eq!(scan_dots(&chars("192.168.1.77")), (3, 10));
    assert_eq!(scan_dots(&chars("")), (0, 0));
    assert_eq!(scan_dots(&chars("abc")), (0, 0));
    assert_eq!(scan_dots(&chars("a.")), (1, 2));
    assert_eq!(scan_dots(&chars("..")), (2, 2));
}

#[test]
fn split_ranges_splits_like_str_split() {
    for s in ["", ",", "a", "a,b", ",a,,b,", "1-1024,8080,8443", "a,"] {
        let v = chars(s);
        let got: Vec<String> = split_ranges(&v, 0, v.len(), ',')
            .into_iter()
            .map(|(a, b)| v[a..b].iter().collect())
            .collect();
        let expected: Vec<String> = s.split(',').map(|p| p.to_string()).collect();
        assert_eq!(got, expected);
    }
    let v = chars("xx1-2yy");
    assert_eq!(split_ranges(&v, 2, 5, '-'), vec![(2, 3), (4, 5)]);
}

#[test]
fn join_puts_the_separator_between() {
    assert_eq!(join(&vec![], "; "), "");
    assert_eq!(join(&vec!["a".to_string()], "; "), "a");
    assert_eq!(join(&vec!["a".to_string(), "".to_string(), "c".to_string()], "; "), "a; ; c");
}

#[test]
fn stable_order_keeps_equal_keys_in_place() {
    let keys: Vec<String> = ["b", "a", "c", "a", "b", ""].iter().map(|s| s.to_string()).collect();
    assert_eq!(stable_order(&keys, false), vec![5, 1, 3, 0, 4, 2]);
    assert_eq!(stable_order(&keys, true), vec![2, 0, 4, 1, 3, 5]);
    assert_eq!(stable_order(&vec![], false), Vec::<usize>::new());
}

#[test]
fn groups_of_a_match() {
    let groups = vec![Some("ab".to_string()), None, Some("".to_string())];
    assert_eq!(group_text(&groups, 0), Some("ab".to_string()));
    assert_eq!(group_text(&groups, 1), None);
    assert_eq!(group_text(&groups, 2), Some("".to_string()));
    assert_eq!(group_text(&groups, 3), None);
    assert_eq!(group_text_or_empty(&groups, 0), "ab");
    assert_eq!(group_text_or_empty(&groups, 1), "");
    assert_eq!(group_text_or_empty(&groups, 9), "");
}

#[test]
fn capture_hands_out_the_text_of_a_group() {
    assert_eq!(capture(r"(\d+)-(\d+)?", "x 12- y", 0), Some("12-".to_string()));
    assert_eq!(capture(r"(\d+)-(\d+)?", "x 12- y", 1), Some("12".to_string()));
    assert_eq!(capture(r"(\d+)-(\d+)?", "x 12- y", 2), None);
    assert_eq!(capture(r"(\d+)-(\d+)?", "x 12- y", 3), None);
    assert_eq!(capture(r"(\d+)-(\d+)?", "none", 1), None);
    assert_eq!(capture(r"(unclosed", "(unclosed", 0), None);
}
