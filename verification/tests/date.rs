use mpressed::date::Date;
use mpressed::decimal::u64_to_string;

#[test]
fn iso_rendering_is_zero_padded() {
    let d = Date::new(2024, 5, 7).unwrap();
    assert_eq!(d.to_iso(), "2024-05-07");
    let d = Date::new(33, 12, 31).unwrap();
    assert_eq!(d.to_iso(), "0033-12-31");
    let d = Date::new(9999, 1, 1).unwrap();
    assert_eq!(d.to_iso(), "9999-01-01");
}

#[test]
fn iso_round_trips() {
    for &(y, m, dd) in &[(1u32, 1u32, 1u32), (2024, 5, 7), (9999, 12, 31), (1970, 2, 28)] {
        let d = Date::new(y, m, dd).unwrap();
        let s = d.to_iso();
        assert_eq!(Date::parse_iso(&s), Some(d));
    }
}

#[test]
fn parse_accepts_only_well_formed_dates() {
    assert_eq!(
        Date::parse_iso("2024-05-07"),
        Some(Date { year: 2024, month: 5, day: 7 })
    );
    assert_eq!(Date::parse_iso(""), None);
    assert_eq!(Date::parse_iso("2024-5-7"), None);
    assert_eq!(Date::parse_iso("2024-05-07x"), None);
    assert_eq!(Date::parse_iso("2024/05/07"), None);
    assert_eq!(Date::parse_iso("2024-13-01"), None);
    assert_eq!(Date::parse_iso("2024-00-01"), None);
    assert_eq!(Date::parse_iso("2024-12-32"), None);
    assert_eq!(Date::parse_iso("2024-12-00"), None);
    assert_eq!(Date::parse_iso("0000-01-01"), None);
    assert_eq!(Date::parse_iso("abcd-ef-gh"), None);
}

#[test]
fn new_rejects_out_of_range_fields() {
    assert!(Date::new(0, 1, 1).is_none());
    assert!(Date::new(10000, 1, 1).is_none());
    assert!(Date::new(2024, 0, 1).is_none());
    assert!(Date::new(2024, 13, 1).is_none());
    assert!(Date::new(2024, 1, 0).is_none());
    assert!(Date::new(2024, 1, 32).is_none());
    assert!(Date::new(2024, 1, 31).is_some());
}

#[test]
fn decimal_rendering_exact_values() {
    assert_eq!(u64_to_string(0), "0");
    assert_eq!(u64_to_string(7), "7");
    assert_eq!(u64_to_string(10), "10");
    assert_eq!(u64_to_string(12345), "12345");
    assert_eq!(u64_to_string(u64::MAX), "18446744073709551615");
}
