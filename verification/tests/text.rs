use pulseagent::number;
use pulseagent::path;
use pulseagent::tail;
use pulseagent::text;

fn chars(s: &str) -> Vec<char> {
    s.chars().collect()
}

fn string(s: &[char]) -> String {
    s.iter().collect()
}

#[test]
fn white_space_is_that_of_unicode() {
    for n in 0..=0x10_ffffu32 {
        if let Some(c) = char::from_u32(n) {
            assert_eq!(text::white(c), c.is_whitespace(), "{n:#x}");
        }
    }
}

#[test]
fn trimming_agrees_with_str() {
    for s in ["", " ", "a", " a b ", "\t\u{3000}x\u{a0}", "\u{200b}y", "\r\n"] {
        assert_eq!(string(text::trimmed(&chars(s))), s.trim());
        assert_eq!(text::blank(s), s.trim().is_empty());
        assert_eq!(
            string(text::trimmed_line_ends(&chars(s))),
            s.trim_end_matches(['\n', '\r'])
        );
    }
    assert_eq!(string(text::trimmed_end_char(&chars("12%%"), '%')), "12");
    assert_eq!(string(text::trimmed_end_char(&chars("https://x//"), '/')), "https://x");
}

#[test]
fn lines_and_words_agree_with_str() {
    for s in ["", "a", "a\n", "a\r\nb", "\n\n", "a\n\nb\r", "one two\tthree \n four", "\u{85}x y"] {
        let c = chars(s);
        let lines: Vec<String> = text::lines_of(&c).into_iter().map(string).collect();
        assert_eq!(lines, s.lines().collect::<Vec<_>>());
        let words: Vec<String> = text::words_of(&c).into_iter().map(string).collect();
        assert_eq!(words, s.split_whitespace().collect::<Vec<_>>());
    }
}

#[test]
fn searching_agrees_with_str() {
    for (hay, needle) in [("abcabc", "ca"), ("abc", ""), ("", "a"), ("äöü", "ü"), ("aab", "ab")] {
        assert_eq!(text::holds(hay, needle), hay.contains(needle));
        let (h, n) = (chars(hay), chars(needle));
        let expected = hay.find(needle).map(|i| hay[..i].chars().count());
        assert_eq!(text::find_sub(&h, &n, 0), expected);
    }
    assert_eq!(text::rfind_char_at(&chars("a/b/c"), '/'), Some(3));
    assert_eq!(text::find_char_at(&chars("a/b/c"), '/', 2), Some(3));
    assert_eq!(text::find_char_at(&chars("abc"), '/', 0), None);
}

#[test]
fn splitting_and_joining() {
    let c = chars("key=value=x");
    let (a, b) = text::split_at_char(&c, '=').unwrap();
    assert_eq!((string(a), string(b)), ("key".to_string(), "value=x".to_string()));
    assert!(text::split_at_char(&c, '|').is_none());
    let parts = vec!["a".to_string(), "b".to_string(), "c".to_string()];
    assert_eq!(text::joined(&parts, "; "), "a; b; c");
    assert_eq!(text::joined(&vec![], ";"), "");
    assert_eq!(text::head_of("0123456789abcdef", 12), "0123456789ab");
    assert_eq!(text::head_of("short", 12), "short");
}

#[test]
fn order_is_that_of_str() {
    for (a, b) in [("", "a"), ("a", "b"), ("a", "aa"), ("b", "aa"), ("x", "x"), ("z", "ä")] {
        assert_eq!(text::before(&chars(a), &chars(b)), a < b);
        assert_eq!(text::before(&chars(b), &chars(a)), b < a);
    }
}

#[test]
fn whole_numbers_agree_with_str() {
    for s in ["", "0", "7", "+7", "-7", "007", "4294967295", "18446744073709551615",
        "18446744073709551616", "9223372036854775807", "-9223372036854775808",
        "9223372036854775808", "1_000", " 1", "0x10", "+", "-", "1.0", "١"]
    {
        assert_eq!(number::read_nat(&chars(s), u64::MAX), s.parse::<u64>().ok(), "{s:?}");
        assert_eq!(number::read_nat(&chars(s), 255), s.parse::<u8>().ok().map(u64::from), "{s:?}");
        assert_eq!(number::read_int(&chars(s)), s.parse::<i64>().ok(), "{s:?}");
    }
}

#[test]
fn written_numbers_agree_with_display() {
    for n in [0, 1, 9, 10, 12345, u64::MAX] {
        assert_eq!(number::dec_u64(n), n.to_string());
    }
    for n in [0, -1, 42, i64::MIN, i64::MAX] {
        assert_eq!(number::dec_i64(n), n.to_string());
    }
}

#[test]
fn float_literals_agree_with_str() {
    for s in ["", "1", "1.", ".5", ".", "1.5e9", "1e", "1e+", "1e-3", "-2.5", "+0", "+-1", "inf",
        "-inf", "Infinity", "NaN", "-nan", "infin", "0x1", "1_0", " 1", "1 ", "1e5.0", "e5", "1E5",
        "--", "12.34", "0.00", "iNf", "٣"]
    {
        assert_eq!(number::float_literal(&chars(s)), s.parse::<f64>().is_ok(), "{s:?}");
    }
}

#[test]
fn division_rounds_toward_zero() {
    for a in [0, 1, -1, 999_999, 1_000_000, -1_000_001, i64::MAX, i64::MIN] {
        assert_eq!(number::div_toward_zero(a, 1_000_000), a / 1_000_000);
    }
}

#[test]
fn lower_case_is_that_of_ascii() {
    assert_eq!(string(&number::ascii_lower(&chars("AbZ-Ä9"))), "AbZ-Ä9".to_ascii_lowercase());
}

#[test]
fn file_names_agree_with_std() {
    for p in ["", "/", "a", "/a/b.txt", "/a/b/", "a/.", "a/..", "..", ".", "/var/log/.hidden",
        "x.tar.gz", "dir/x.", "a//b", "./a", "a/./b/.", "..a"]
    {
        let std_path = std::path::Path::new(p);
        let c = chars(p);
        let name = path::file_name(&c);
        assert_eq!(
            name.map(string),
            std_path.file_name().map(|n| n.to_string_lossy().into_owned()),
            "{p:?}"
        );
        assert_eq!(
            name.map(|n| string(path::stem(n))),
            std_path.file_stem().map(|n| n.to_string_lossy().into_owned()),
            "{p:?}"
        );
        assert_eq!(
            path::extension(&c).map(string),
            std_path.extension().map(|n| n.to_string_lossy().into_owned()),
            "{p:?}"
        );
    }
}

#[test]
fn reading_starts_over_in_a_shorter_file() {
    assert_eq!(tail::resume(10, 20), 10);
    assert_eq!(tail::resume(20, 20), 20);
    assert_eq!(tail::resume(30, 20), 0);
}

#[test]
fn files_are_read_on_where_reading_stopped() {
    let mut o = tail::Offsets::new();
    o.skip_history("/a", 100);
    assert_eq!(o.start("/a", 120), 100);
    assert!(o.can_advance("/a", 20));
    o.advance("/a", 20);
    // a new file is read from its start, and leaves the others alone
    assert_eq!(o.start("/b", 7), 0);
    o.advance("/b", 7);
    assert_eq!(o.start("/a", 130), 120);
    // a file that was replaced is read from its start
    assert_eq!(o.start("/a", 5), 0);
    assert_eq!(o.start("/b", 9), 7);
    assert!(!o.can_advance("/b", u64::MAX));
}
