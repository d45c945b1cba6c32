use artisan_cmd::ansi::strip_ansi;
use artisan_cmd::report::push_capped;
use artisan_cmd::tally::{is_before, MethodCounts};
use artisan_cmd::text::{
    contains, contains_char, ends_with, find, is_whitespace, join, lines, same, split,
    split_whitespace, starts_with, to_ascii_lowercase, to_decimal, trim, trim_matches,
    trim_start_matches, truncate, Pattern,
};

const SAMPLES: [&str; 12] = [
    "",
    "a",
    "\n",
    "a\nb",
    "a\r\nb\r\n",
    "a\r\n\r\n  b \r",
    "\n\nx\n",
    "  leading and trailing \t ",
    "caf\u{e9} \u{3000} na\u{ef}ve\u{a0}",
    "...dots...",
    "|x| y | z|",
    "\u{1b}[31mred\u{1b}[0m",
];

#[test]
fn white_space_is_that_of_the_standard_library() {
    for code in 0..=0x10ffffu32 {
        if let Some(c) = char::from_u32(code) {
            assert_eq!(is_whitespace(c), c.is_whitespace());
        }
    }
}

#[test]
fn lines_words_and_trimming_are_those_of_the_standard_library() {
    for s in SAMPLES {
        assert_eq!(lines(s), s.lines().collect::<Vec<_>>());
        assert_eq!(split_whitespace(s), s.split_whitespace().collect::<Vec<_>>());
        assert_eq!(trim(s), s.trim());
        assert_eq!(trim_matches(s, Pattern::Char('|')), s.trim_matches('|'));
        assert_eq!(trim_start_matches(s, Pattern::Char('.')), s.trim_start_matches('.'));
        assert_eq!(split(s, Pattern::Char('|')), s.split('|').collect::<Vec<_>>());
        assert_eq!(to_ascii_lowercase(s), s.to_ascii_lowercase());
    }
}

#[test]
fn splitting_is_undone_by_joining() {
    for s in SAMPLES {
        for c in ['\n', '|', '.', ' '] {
            assert_eq!(join(&split(s, Pattern::Char(c)), &c.to_string()), s);
        }
    }
}

#[test]
fn joining_is_undone_by_splitting() {
    let parts = vec!["a".to_string(), String::new(), "b c".to_string()];
    let text = join(&parts, "|");
    assert_eq!(text, "a||b c");
    assert_eq!(split(&text, Pattern::Char('|')), parts);
    let words = vec!["GET".to_string(), "/".to_string(), "...".to_string()];
    assert_eq!(split_whitespace(&join(&words, " ")), words);
    assert_eq!(split_whitespace("  GET    /  ... "), words);
    assert_eq!(split_whitespace(trim("  GET    /  ... ")), words);
    let rows = vec!["one".to_string(), String::new(), "three".to_string()];
    assert_eq!(lines(&join(&rows, "\n")), rows);
    assert_eq!(lines("one\n\nthree\n"), rows);
    assert_eq!(join(&[], ","), "");
}

#[test]
fn trimming_twice_is_trimming_once() {
    for s in SAMPLES {
        assert_eq!(trim(trim(s)), trim(s));
    }
}

#[test]
fn searching() {
    assert_eq!(find("key .... value", "..."), Some(4));
    assert_eq!(find("\u{e9}\u{e9}...", "..."), Some(2));
    assert_eq!(find("a..b..", "..."), None);
    assert_eq!(find("ab", ""), Some(0));
    assert!(contains("xyes", "yes"));
    assert!(!contains("ye", "yes"));
    assert!(contains_char("a|b", '|'));
    assert!(!contains_char("ab", '|'));
    assert!(starts_with("--format=json-pretty", "--format=json"));
    assert!(!starts_with("--format", "--format=json"));
    assert!(ends_with("x Ran", "Ran"));
    assert!(!ends_with("Ran x", "Ran"));
    assert!(same("a", "a"));
    assert!(!same("a", "ab"));
}

#[test]
fn decimal_notation() {
    for n in [0usize, 7, 10, 99, 100, 1234567890, usize::MAX] {
        assert_eq!(to_decimal(n), n.to_string());
    }
}

#[test]
fn truncation() {
    assert_eq!(truncate("hello world", 8), "hello...");
    assert_eq!(truncate("hi", 10), "hi");
    assert_eq!(truncate("hello", 5), "hello");
    assert_eq!(truncate("hello", 2), "...");
    assert_eq!(truncate("hello", 3), "...");
    assert_eq!(truncate("\u{e9}\u{e9}\u{e9}\u{e9}\u{e9}", 4), "\u{e9}...");
}

#[test]
fn escapes_are_removed() {
    assert_eq!(strip_ansi("\u{1b}[31mError\u{1b}[0m"), "Error");
    assert_eq!(strip_ansi("\u{1b}[1;32mok\u{1b}[m!"), "ok!");
    assert_eq!(strip_ansi("\u{1b}[12"), "\u{1b}[12");
    assert_eq!(strip_ansi("\u{1b}]0;t"), "\u{1b}]0;t");
    assert_eq!(strip_ansi("\u{1b}[\u{1b}[31m0m"), "\u{1b}[0m");
}

#[test]
fn plain_text_has_no_escapes() {
    for s in &SAMPLES[..11] {
        assert_eq!(strip_ansi(s), *s);
    }
}

#[test]
fn a_list_is_shown_up_to_its_limit() {
    let items: Vec<String> = (0..5).map(|i| i.to_string()).collect();
    let mut out = vec!["head".to_string()];
    push_capped(&mut out, &items, 3, "... +", " more");
    assert_eq!(out, vec!["head", "0", "1", "2", "... +2 more"]);
    let mut all = Vec::new();
    push_capped(&mut all, &items, 5, "... +", " more");
    assert_eq!(all, items);
}

#[test]
fn texts_are_ordered_as_in_the_standard_library() {
    let words = ["", "A", "DELETE", "GET", "GET|HEAD", "GETX", "a", "\u{e9}", "\u{ffff}", "\u{10000}"];
    for a in words {
        for b in words {
            assert_eq!(is_before(a, b), a < b);
        }
    }
}

#[test]
fn counts_are_listed_in_order_and_add_up() {
    let methods = ["POST", "GET", "POST", "DELETE", "GET", "POST", ""];
    let mut counts = MethodCounts::new();
    for m in methods {
        counts.increment(m);
    }
    let entries: Vec<(&str, usize)> =
        counts.entries().iter().map(|(m, n)| (m.as_str(), *n)).collect();
    assert_eq!(entries, vec![("", 1), ("DELETE", 1), ("GET", 2), ("POST", 3)]);
    assert_eq!(entries.iter().map(|e| e.1).sum::<usize>(), methods.len());
}
