use stuv2ical::timestamp::{format_ical_datetime, parse_ical_datetime, Timestamp, UtcFields};

#[test]
fn fields_of_an_instant() {
    let t = Timestamp::from_secs(1709211909).unwrap();
    assert_eq!(
        t.fields(),
        UtcFields { year: 2024, month: 2, day: 29, hour: 13, minute: 5, second: 9 }
    );
    assert_eq!(t.secs(), 1709211909);
}

#[test]
fn ical_form_of_an_instant() {
    let t = Timestamp::from_secs(1709211909).unwrap();
    assert_eq!(format_ical_datetime(&t), "20240229T130509Z");
    let epoch = Timestamp::from_secs(0).unwrap();
    assert_eq!(format_ical_datetime(&epoch), "19700101T000000Z");
}

#[test]
fn ical_form_reads_back() {
    for secs in [0i64, 1696233600, 1709211909, 253402300799] {
        let t = Timestamp::from_secs(secs).unwrap();
        assert_eq!(parse_ical_datetime(&format_ical_datetime(&t)), Some(t.fields()));
    }
}

#[test]
fn other_forms_do_not_parse() {
    assert_eq!(parse_ical_datetime("2024-02-29T13:05:09Z"), None);
    assert_eq!(parse_ical_datetime("20240229T130509"), None);
    assert_eq!(parse_ical_datetime("2024O229T130509Z"), None);
    assert_eq!(parse_ical_datetime(""), None);
}

#[test]
fn years_beyond_four_digits_are_refused() {
    let last = Timestamp::from_secs(253402300799).unwrap();
    assert_eq!(last.fields().year, 9999);
    assert!(Timestamp::from_secs(253402300800).is_none());
    assert!(Timestamp::from_secs(-62167219201).is_none());
    assert!(Timestamp::from_secs(i64::MAX).is_none());
}
