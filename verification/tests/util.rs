use optopodi::text::{decimal_string, join, str_eq, str_lt};
use optopodi::util::{percentage, percentage_fits};

#[test]
fn percentage_of_zero_denominator_is_zero() {
    assert_eq!(percentage(0, 0), 0);
    assert_eq!(percentage(7, 0), 0);
    assert_eq!(percentage(u64::MAX, 0), 0);
}

#[test]
fn percentage_of_zero_numerator_is_zero() {
    assert_eq!(percentage(0, 1), 0);
    assert_eq!(percentage(0, 10), 0);
    assert_eq!(percentage(0, u64::MAX), 0);
}

#[test]
fn percentage_of_itself_is_one_hundred() {
    assert_eq!(percentage(1, 1), 100);
    assert_eq!(percentage(10, 10), 100);
    assert_eq!(percentage(u64::MAX / 100, u64::MAX / 100), 100);
    assert_eq!(percentage(u64::MAX / 100 + 1, u64::MAX / 100 + 1), 100);
    assert_eq!(percentage(u64::MAX, u64::MAX), 100);
}

#[test]
fn percentage_needs_only_its_result_to_fit() {
    assert_eq!(percentage(u64::MAX, 100), u64::MAX);
    assert_eq!(percentage(u64::MAX, 200), u64::MAX / 2);
    assert_eq!(percentage(u64::MAX - 1, u64::MAX), 99);
    assert!(percentage_fits(u64::MAX, 100));
    assert!(percentage_fits(u64::MAX, 0));
    assert!(!percentage_fits(u64::MAX, 99));
    assert!(!percentage_fits(u64::MAX / 100 + 1, 1));
    assert!(percentage_fits(u64::MAX / 100, 1));
}

#[test]
fn percentage_rounds_down() {
    assert_eq!(percentage(1, 3), 33);
    assert_eq!(percentage(2, 3), 66);
    assert_eq!(percentage(6, 10), 60);
    assert_eq!(percentage(199, 200), 99);
    assert_eq!(percentage(3, 2), 150);
}

#[test]
fn decimal_string_writes_numbers() {
    assert_eq!(decimal_string(0), "0");
    assert_eq!(decimal_string(9), "9");
    assert_eq!(decimal_string(10), "10");
    assert_eq!(decimal_string(1234567890), "1234567890");
    assert_eq!(decimal_string(u64::MAX), "18446744073709551615");
}

#[test]
fn join_puts_separator_between_parts() {
    let none: Vec<String> = vec![];
    assert_eq!(join(&none, ", "), "");
    assert_eq!(join(&vec!["a".to_string()], ", "), "a");
    assert_eq!(
        join(&vec!["a".to_string(), "b".to_string(), "c".to_string()], ", "),
        "a, b, c"
    );
    assert_eq!(join(&vec!["".to_string(), "".to_string()], ","), ",");
}

#[test]
fn strings_are_ordered_by_their_bytes() {
    assert!(str_lt("a", "b"));
    assert!(!str_lt("b", "a"));
    assert!(!str_lt("a", "a"));
    assert!(str_lt("", "a"));
    assert!(!str_lt("a", ""));
    assert!(str_lt("ab", "abc"));
    assert!(str_lt("Zed", "alice"));
    assert!(str_lt("z", "é"));
    for (a, b) in [("alice", "bob"), ("bob", "alice"), ("x", "x"), ("", ""), ("é", "e")] {
        assert_eq!(str_lt(a, b), a < b);
        assert_eq!(str_eq(a, b), a == b);
    }
}
