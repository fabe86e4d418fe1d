use tentacle::text::{contains_text, decimal_text, natural_text, parse_int, same_text, split_text};

#[test]
fn decimal_text_writes_numbers() {
    assert_eq!(decimal_text(2019), "2019");
    assert_eq!(decimal_text(0), "0");
    assert_eq!(decimal_text(-7), "-7");
    assert_eq!(decimal_text(i32::MAX), "2147483647");
    assert_eq!(decimal_text(i32::MIN), "-2147483648");
    assert_eq!(natural_text(u64::MAX), "18446744073709551615");
    assert_eq!(natural_text(10), "10");
}

#[test]
fn parse_int_reads_what_the_standard_library_reads() {
    for text in ["0", "7", "-7", "+7", "007", "2147483647", "-2147483648", "2147483648", "-2147483649", "", "-", "+", "1a", " 1", "1 ", "--1", "99999999999999999999", "٣"] {
        assert_eq!(parse_int(text), text.parse::<i32>().ok(), "for {:?}", text);
    }
    assert_eq!(parse_int("42"), Some(42));
    assert_eq!(parse_int("x"), None);
}

#[test]
fn contains_text_finds_runs() {
    assert!(contains_text("%{SYSLOGTIMESTAMP:timestamp} %{GREEDYDATA:message}", "%{SYSLOGTIMESTAMP:timestamp}"));
    assert!(!contains_text("%{TIMESTAMP_ISO8601:timestamp}", "%{SYSLOGTIMESTAMP:timestamp}"));
    assert!(contains_text("abc", ""));
    assert!(contains_text("", ""));
    assert!(!contains_text("ab", "abc"));
    assert!(contains_text("aab", "ab"));
    assert!(contains_text("grüße", "üß"));
}

#[test]
fn split_text_gives_one_part_more_than_separators() {
    assert_eq!(split_text("a,b", ','), vec!["a", "b"]);
    assert_eq!(split_text("", ','), vec![""]);
    assert_eq!(split_text("a,", ','), vec!["a", ""]);
    assert_eq!(split_text(",a,,b", ','), vec!["", "a", "", "b"]);
    assert_eq!(split_text("DEBUG", ','), vec!["DEBUG"]);
    assert_eq!(split_text("ä,ö", ','), vec!["ä", "ö"]);
}

#[test]
fn same_text_compares_characters() {
    assert!(same_text("journal", "journal"));
    assert!(!same_text("journal", "Journal"));
    assert!(same_text("", ""));
}
