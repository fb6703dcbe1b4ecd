use stuv2ical::icalendar::{
    escape_field_value, push_decimal, render_calendar, write_field, write_icalendar, write_line,
    write_short_line,
};
use stuv2ical::internal;
use stuv2ical::lecture::Lecture;
use stuv2ical::timestamp::Timestamp;

fn chars(s: &str) -> Vec<char> {
    s.chars().collect()
}

fn text(v: &[char]) -> String {
    v.iter().collect()
}

const HEADER: &str = "BEGIN:VCALENDAR\r\nVERSION:2.0\r\nPRODID:-//Siphalor//StuV2iCal//DE\r\nX-STUV2ICAL-CREATION:02.10.2023 08:00\r\n";

#[test]
fn short_line_gets_crlf() {
    let mut out = Vec::new();
    write_short_line(&mut out, "VERSION:2.0");
    assert_eq!(text(&out), "VERSION:2.0\r\n");
}

#[test]
fn line_of_72_octets_stays_whole() {
    let mut out = Vec::new();
    write_line(&mut out, &chars(&"a".repeat(72)));
    assert_eq!(text(&out), format!("{}\r\n", "a".repeat(72)));
}

#[test]
fn long_line_is_folded() {
    let mut out = Vec::new();
    write_line(&mut out, &chars(&"a".repeat(150)));
    let expected = format!("{}\r\n {}\r\n {}\r\n", "a".repeat(72), "a".repeat(72), "a".repeat(6));
    assert_eq!(text(&out), expected);
    for (k, l) in text(&out).split("\r\n").filter(|l| !l.is_empty()).enumerate() {
        assert!(l.len() <= if k == 0 { 72 } else { 73 });
    }
}

#[test]
fn folding_never_splits_a_character() {
    let mut out = Vec::new();
    let line = format!("{}ü{}", "a".repeat(71), "b".repeat(3));
    write_line(&mut out, &chars(&line));
    let expected = format!("{}\r\n üb{}\r\n", "a".repeat(71), "b".repeat(2));
    assert_eq!(text(&out), expected);
    let mut out = Vec::new();
    write_line(&mut out, &chars(&"€".repeat(30)));
    let expected = format!("{}\r\n {}\r\n", "€".repeat(24), "€".repeat(6));
    assert_eq!(text(&out), expected);
}

#[test]
fn empty_line_writes_nothing() {
    let mut out = Vec::new();
    write_line(&mut out, &Vec::new());
    assert!(out.is_empty());
}

#[test]
fn commas_are_escaped() {
    assert_eq!(text(&escape_field_value(&chars("a,b,,c"))), "a\\,b\\,\\,c");
    let mut out = Vec::new();
    write_field(&mut out, "LOCATION", &chars("A1, B2"));
    assert_eq!(text(&out), "LOCATION:A1\\, B2\r\n");
}

#[test]
fn decimal_digits() {
    let mut out = Vec::new();
    push_decimal(&mut out, 0);
    push_decimal(&mut out, 4294967295);
    assert_eq!(text(&out), "04294967295");
}

#[test]
fn calendar_without_lectures_has_header_and_footer_only() {
    let now = Timestamp::from_secs(1696233600).unwrap();
    let doc = render_calendar(&Vec::new(), &now);
    assert_eq!(doc, format!("{}END:VCALENDAR\r\n", HEADER));
}

#[test]
fn calendar_with_one_lecture() {
    let now = Timestamp::from_secs(1696233600).unwrap();
    let lecture = Lecture::from(internal::Lecture {
        id: 4711,
        date: Timestamp::from_secs(1696233600).unwrap(),
        start_time: Timestamp::from_secs(1696233600).unwrap(),
        end_time: Timestamp::from_secs(1696266000).unwrap(),
        name: "Algo, Teil 2 - Raum: B204".to_string(),
        lecturer: "Müller, Hans, Schmidt, Anna".to_string(),
        rooms: vec![],
    });
    let doc = render_calendar(&vec![lecture], &now);
    let expected = format!(
        "{}BEGIN:VEVENT\r\nUID:4711@mosbach.dhbw.de\r\nDTSTAMP:20231002T080000Z\r\n\
DTSTART:20231002T080000Z\r\nDTEND:20231002T170000Z\r\nSUMMARY:Algo\\, Teil 2\r\n\
LOCATION:B204\r\nDESCRIPTION:Dozent:innen: Müller\\, Hans\\, Schmidt\\, Anna\r\n\
ATTENDEE;CN=\"Müller, Hans\":noreply@mosbach.dhbw.de\r\n\
ATTENDEE;CN=\"Schmidt, Anna\":noreply@mosbach.dhbw.de\r\nEND:VEVENT\r\nEND:VCALENDAR\r\n",
        HEADER
    );
    assert_eq!(doc, expected);
}

#[test]
fn calendar_now_has_header_and_footer() {
    let doc = write_icalendar(&Vec::new()).unwrap();
    assert!(doc.starts_with("BEGIN:VCALENDAR\r\nVERSION:2.0\r\n"));
    assert!(doc.ends_with("\r\nEND:VCALENDAR\r\n"));
    assert_eq!(doc.lines().count(), 5);
}

#[test]
fn every_line_of_a_document_fits() {
    let now = Timestamp::from_secs(1696233600).unwrap();
    let lecture = Lecture::from(internal::Lecture {
        id: 4294967295,
        date: Timestamp::from_secs(1696233600).unwrap(),
        start_time: Timestamp::from_secs(1696233600).unwrap(),
        end_time: Timestamp::from_secs(1696266000).unwrap(),
        name: format!("{} - Raum: {}", "Größere Übung, ".repeat(8), "Hörsaal €".repeat(12)),
        lecturer: "Müßiggang-Überschwänglich, Ännchen, ".repeat(5),
        rooms: vec![],
    });
    let doc = render_calendar(&vec![lecture], &now);
    assert!(doc.ends_with("\r\n"));
    let lines: Vec<&str> = doc[..doc.len() - 2].split("\r\n").collect();
    assert!(lines.len() > 20);
    for l in lines {
        assert!(l.len() <= 72 || (l.starts_with(' ') && l.len() <= 73), "{:?}", l);
    }
}
