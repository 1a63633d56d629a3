use homerunner::clock::{days, older};
use homerunner::number::{integer_text, number_text, parse_i64, parse_u32, parse_u64, wide_number_text};
use homerunner::order::{ascending, insert_text};
use homerunner::paths::join;
use homerunner::text::{
    chars, find_in, replaced, split_at_char, to_lines, to_lower, to_words, trimmed,
};

fn strings(v: Vec<Vec<char>>) -> Vec<String> {
    v.into_iter().map(|w| w.into_iter().collect()).collect()
}

#[test]
fn numbers_read_back_as_they_are_written() {
    for n in [0, 7, 10, 4095, u64::MAX] {
        assert_eq!(number_text(n), n.to_string());
        assert_eq!(parse_u64(&chars(&number_text(n))), Some(n));
    }
    for n in [0, -1, 42, i64::MIN, i64::MAX] {
        assert_eq!(integer_text(n), n.to_string());
        assert_eq!(parse_i64(&chars(&integer_text(n))), Some(n));
    }
    assert_eq!(wide_number_text(u128::MAX), u128::MAX.to_string());
}

#[test]
fn numbers_are_read_as_std_reads_them() {
    for s in [
        "", "+", "-", "+5", "-5", "05", "5 ", "x", "18446744073709551616", "4294967296",
        "-9223372036854775809", "9223372036854775808",
    ] {
        assert_eq!(parse_u64(&chars(s)), s.parse::<u64>().ok(), "{s}");
        assert_eq!(parse_u32(&chars(s)), s.parse::<u32>().ok(), "{s}");
        assert_eq!(parse_i64(&chars(s)), s.parse::<i64>().ok(), "{s}");
    }
}

#[test]
fn texts_are_cut_as_std_cuts_them() {
    for s in ["", "a", " a b ", "a\nb\r\n\nc", "\r\n", "a\r", "ÄÖ x\u{2003}y", "b=c=d"] {
        let c = chars(s);
        assert_eq!(trimmed(&c).iter().collect::<String>(), s.trim());
        assert_eq!(strings(to_lines(&c)), s.lines().collect::<Vec<_>>());
        assert_eq!(
            strings(to_words(&c)),
            s.split_whitespace().collect::<Vec<_>>()
        );
        assert_eq!(
            strings(split_at_char(&c, '=')),
            s.split('=').collect::<Vec<_>>()
        );
        assert_eq!(
            to_lower(&c).iter().collect::<String>(),
            s.to_ascii_lowercase()
        );
        assert_eq!(replaced(s, '=', '-'), s.replace('=', "-"));
    }
    assert_eq!(find_in(&chars("abcabc"), &chars("ca")), Some(2));
    assert_eq!(find_in(&chars("abc"), &chars("x")), None);
}

#[test]
fn paths_join_as_std_joins_them() {
    for (a, b) in [("/a", "b"), ("/a/", "b"), ("/a", "/b"), ("", "b"), ("a", "")] {
        assert_eq!(
            join(a, b),
            std::path::Path::new(a).join(b).to_string_lossy()
        );
    }
}

#[test]
fn ages_are_compared_in_seconds() {
    assert!(!older(0, 60_000_000, 60));
    assert!(older(0, 60_000_001, 60));
    assert!(!older(i64::MAX, i64::MIN, 0));
    assert_eq!(days(2), 172_800);
}

#[test]
fn orders_are_stable() {
    assert_eq!(ascending(&vec![3, 1, 2, 1]), [1, 3, 2, 0]);
    let mut names = vec![];
    for name in ["b", "a", "b", "c"] {
        insert_text(&mut names, name);
    }
    assert_eq!(names, ["a", "b", "c"]);
}
