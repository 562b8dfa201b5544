use imaging_portal::number::{decimal_of, numbers_in, parse_u64};
use imaging_portal::order::comes_before;
use imaging_portal::split::{lines_of, split_at_first, words_of};
use imaging_portal::text::{
    chars_of, contains, find_in, is_same_but_case, is_white_space, same, starts_with, text_of,
    trimmed, trimmed_end, trimmed_start,
};

/// Every text of up to `max` characters of `alphabet`.
fn texts(alphabet: &[char], max: usize) -> Vec<String> {
    let mut all = vec![String::new()];
    let mut last = all.clone();
    for _ in 0..max {
        let mut next = Vec::new();
        for t in &last {
            for c in alphabet {
                let mut u = t.clone();
                u.push(*c);
                next.push(u);
            }
        }
        all.extend(next.iter().cloned());
        last = next;
    }
    all
}

fn spell(v: &[&[char]]) -> Vec<String> {
    v.iter().map(|p| text_of(p)).collect()
}

#[test]
fn white_space_is_unicode_white_space() {
    for u in 0..=0x10ffffu32 {
        if let Some(c) = char::from_u32(u) {
            assert_eq!(is_white_space(c), c.is_whitespace(), "{:x}", u);
        }
    }
}

#[test]
fn characters_and_text_go_both_ways() {
    for t in ["", "abc", "\u{2014} na\u{ef}ve \u{1F527}"] {
        let chars = chars_of(t);
        assert_eq!(chars, t.chars().collect::<Vec<char>>());
        assert_eq!(text_of(&chars), t);
    }
}

#[test]
fn trimming_matches_std() {
    for t in texts(&['a', ' ', '\n', '\u{2003}'], 5) {
        let chars = chars_of(&t);
        assert_eq!(text_of(trimmed(&chars)), t.trim());
        assert_eq!(text_of(trimmed_start(&chars)), t.trim_start());
        assert_eq!(text_of(trimmed_end(&chars)), t.trim_end());
    }
}

#[test]
fn lines_match_std() {
    for t in texts(&['a', '\r', '\n', ' '], 6) {
        let chars = chars_of(&t);
        let expected: Vec<String> = t.lines().map(str::to_owned).collect();
        assert_eq!(spell(&lines_of(&chars)), expected, "{:?}", t);
    }
}

#[test]
fn words_match_std() {
    for t in texts(&['a', 'b', ' ', '\t'], 6) {
        let chars = chars_of(&t);
        let expected: Vec<String> = t.split_whitespace().map(str::to_owned).collect();
        assert_eq!(spell(&words_of(&chars)), expected, "{:?}", t);
    }
}

#[test]
fn searching_matches_std() {
    for t in texts(&['a', 'b', '\u{e9}'], 5) {
        for p in texts(&['a', 'b', '\u{e9}'], 2) {
            let chars = chars_of(&t);
            let at = t.find(&p).map(|b| t[..b].chars().count());
            assert_eq!(find_in(&chars, &p), at, "{:?} in {:?}", p, t);
            assert_eq!(contains(&chars, &p), t.contains(&p));
            assert_eq!(starts_with(&chars, &p), t.starts_with(&p));
            let parts = split_at_first(&chars, &p).map(|(a, b)| (text_of(a), text_of(b)));
            let expected = t.split_once(&p).map(|(a, b)| (a.to_owned(), b.to_owned()));
            assert_eq!(parts, expected);
        }
    }
}

#[test]
fn order_and_equality_match_std() {
    let all = texts(&['A', 'a', '\u{e9}', '\u{1F527}'], 3);
    for a in &all {
        for b in &all {
            let (ca, cb) = (chars_of(a), chars_of(b));
            assert_eq!(comes_before(&ca, &cb), a < b, "{:?} {:?}", a, b);
            assert_eq!(same(&ca, &cb), a == b);
            assert_eq!(is_same_but_case(&ca, &cb), a.eq_ignore_ascii_case(b));
        }
    }
}

#[test]
fn ascii_case_ends_at_z() {
    for a in 0..128u8 {
        for b in 0..128u8 {
            let (a, b) = (a as char, b as char);
            assert_eq!(is_same_but_case(&[a], &[b]), a.eq_ignore_ascii_case(&b));
        }
    }
}

#[test]
fn parsing_matches_std() {
    for t in texts(&['0', '7', '+', '-', ' '], 4) {
        assert_eq!(parse_u64(&chars_of(&t)), t.parse::<u64>().ok(), "{:?}", t);
    }
    for t in [
        "18446744073709551615",
        "18446744073709551616",
        "+18446744073709551615",
        "00000000000000000000000000000000012",
        "99999999999999999999999999",
        "1_000",
        "\u{0661}",
    ] {
        assert_eq!(parse_u64(&chars_of(t)), t.parse::<u64>().ok(), "{:?}", t);
    }
}

#[test]
fn numbers_of_a_line() {
    let numbers = |t: &str| numbers_in(&chars_of(t));
    assert_eq!(numbers(""), Vec::<usize>::new());
    assert_eq!(numbers("none"), Vec::<usize>::new());
    assert_eq!(numbers("12"), vec![12]);
    assert_eq!(numbers("a1b02 3"), vec![1, 2, 3]);
    // A run that is too large is left out.
    assert_eq!(numbers("1 99999999999999999999999999 2"), vec![1, 2]);
    assert_eq!(numbers("18446744073709551615"), vec![usize::MAX]);
    assert_eq!(numbers("18446744073709551616"), Vec::<usize>::new());
}

#[test]
fn decimal_matches_std() {
    for n in (0..2000).chain([9999, 10000, 123456789, usize::MAX - 1, usize::MAX]) {
        assert_eq!(decimal_of(n), n.to_string());
    }
}

#[test]
fn decimal_is_read_back() {
    for n in [0, 7, 10, 4711, usize::MAX] {
        assert_eq!(numbers_in(&chars_of(&decimal_of(n))), vec![n]);
        assert_eq!(parse_u64(&chars_of(&decimal_of(n))), Some(n as u64));
    }
}
