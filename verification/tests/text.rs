use libcitesync::text::{str_eq, str_lt, usize_to_decimal};

#[test]
fn decimal_formatting() {
    assert_eq!(usize_to_decimal(0), "0");
    assert_eq!(usize_to_decimal(7), "7");
    assert_eq!(usize_to_decimal(10), "10");
    assert_eq!(usize_to_decimal(1234567), "1234567");
    assert_eq!(usize_to_decimal(usize::MAX), usize::MAX.to_string());
}

#[test]
fn string_order_matches_str_ord() {
    let words = ["", "a", "b", "ab", "abc", "Z", "é", "z", "ä", "aa"];
    for a in words {
        for b in words {
            assert_eq!(str_lt(a, b), a < b, "{a} < {b}");
            assert_eq!(str_eq(a, b), a == b);
        }
    }
}
