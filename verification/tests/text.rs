use kotoma::filter::is_sentence_end;
use kotoma::text::{
    ascii_lower, contains, decimal_of, ends_with, join, pad_left, pad_right, position, strip_prefix,
    trim,
};
use kotoma::time::Timestamp;

fn strings(list: &[&str]) -> Vec<String> {
    list.iter().map(|s| s.to_string()).collect()
}

#[test]
fn texts_are_taken_apart() {
    assert_eq!(trim(" \t\u{3000}a b\n"), "a b");
    assert_eq!(trim("\n"), "");
    assert_eq!(strip_prefix("loopback:x", "loopback:"), Some("x".to_string()));
    assert_eq!(strip_prefix("x", "loopback:"), None);
    assert!(ends_with("a.monitor", ".monitor"));
    assert!(!ends_with("monitor", ".monitor"));
    assert!(contains("日本語", "本"));
    assert!(!contains("ab", "ba"));
    assert!(contains("ab", ""));
}

#[test]
fn texts_are_put_together() {
    assert_eq!(join(&strings(&["a", "b", "c"]), " | "), "a | b | c");
    assert_eq!(join(&vec![], " | "), "");
    assert_eq!(decimal_of(0), "0");
    assert_eq!(decimal_of(u64::MAX), "18446744073709551615");
    assert_eq!(pad_right("é", 3), "é  ");
    assert_eq!(pad_left("abcd", 3), "abcd");
    assert_eq!(ascii_lower("MÄD"), "mÄd");
    assert_eq!(position(&strings(&["a", "b", "b"]), "b"), Some(1));
    assert_eq!(position(&strings(&["a"]), "b"), None);
}

#[test]
fn sentences_end_with_their_marks() {
    for s in ["Done.", "Really?", "Go!", "終わり。", "本当？", "行け！"] {
        assert!(is_sentence_end(s));
    }
    for s in ["", "I went to", "so,", "そして、", "done. "] {
        assert!(!is_sentence_end(s));
    }
}

#[test]
fn times_are_local() {
    let t = Timestamp::new(1_700_000_000, 999_000_000, 9 * 3600).unwrap();
    assert_eq!(t.hm(), "07:13");
    assert_eq!(t.hms(), "07:13:20");
    assert_eq!(t.date(), "2023-11-15");
    let u = Timestamp::new(1_700_000_001, 0, 0).unwrap();
    assert_eq!(t.millis_until(&u), 1);
    assert_eq!(u.millis_until(&t), -1);
    assert_eq!(u.date(), "2023-11-14");
    assert!(!t.same_day(&u));
    assert!(u.same_day(&Timestamp::new(1_700_000_000, 0, 0).unwrap()));
    assert_eq!((t.secs(), t.nanos(), t.offset()), (1_700_000_000, 999_000_000, 32_400));
}

#[test]
fn impossible_times_are_refused() {
    assert!(Timestamp::new(0, 1_000_000_000, 0).is_none());
    assert!(Timestamp::new(0, 0, 86_400).is_none());
    assert!(Timestamp::new(i64::MAX, 0, 0).is_none());
    assert!(Timestamp::new(0, 0, -86_399).is_some());
}

#[test]
fn dates_follow_the_gregorian_calendar() {
    let date = |secs: i64| Timestamp::new(secs, 0, 0).unwrap().date();
    assert_eq!(date(0), "1970-01-01");
    assert_eq!(date(-1), "1969-12-31");
    assert_eq!(date(951_782_400), "2000-02-29");
    assert_eq!(date(951_868_800), "2000-03-01");
    assert_eq!(date(1_709_164_800), "2024-02-29");
    assert_eq!(date(4_107_542_400), "2100-03-01");
    assert_eq!(date(4_107_456_000), "2100-02-28");
    assert_eq!(date(1_735_603_200), "2024-12-31");
}

#[test]
fn years_have_four_digits_or_a_sign() {
    let date = |secs: i64| Timestamp::new(secs, 0, 0).unwrap().date();
    assert_eq!(date(253_402_300_799), "9999-12-31");
    assert_eq!(date(253_402_300_800), "+10000-01-01");
    assert_eq!(date(-62_135_596_800), "0001-01-01");
    assert_eq!(date(-62_135_596_801), "0000-12-31");
    assert_eq!(date(-62_167_219_200), "0000-01-01");
    assert_eq!(date(-62_167_219_201), "-0001-12-31");
    assert_eq!(date(-30_610_224_000), "1000-01-01");
    assert_eq!(date(-30_610_224_001), "0999-12-31");
}

#[test]
fn dates_agree_with_the_days_that_they_count() {
    // Walks day by day over four centuries, from 1 January 1970 on.
    let lengths = [31, 28, 31, 30, 31, 30, 31, 31, 30, 31, 30, 31];
    let (mut year, mut month, mut day) = (1970, 1, 1);
    for n in 0..146_097i64 {
        let t = Timestamp::new(n * 86_400 + 43_200, 0, 0).unwrap();
        assert_eq!(t.date(), format!("{year:04}-{month:02}-{day:02}"));
        let leap = year % 4 == 0 && (year % 100 != 0 || year % 400 == 0);
        let length = lengths[month - 1] + if leap && month == 2 { 1 } else { 0 };
        day += 1;
        if day > length {
            day = 1;
            month += 1;
        }
        if month > 12 {
            month = 1;
            year += 1;
        }
    }
    assert_eq!((year, month, day), (2370, 1, 1));
}
