use stuv2ical::internal;
use stuv2ical::lecture::{
    any_room_online, classify, mentions_online, normalize_rooms, split_lecturers, EventType,
    Lecture,
};
use stuv2ical::timestamp::Timestamp;

fn at(secs: i64) -> Timestamp {
    Timestamp::from_secs(secs).unwrap()
}

const EIGHT: i64 = 1696233600;
const SIXTEEN_HUNDRED: i64 = 1696233600 + 8 * 3600;

fn raw(name: &str, lecturer: &str, rooms: Vec<&str>, start: i64, end: i64) -> internal::Lecture {
    internal::Lecture {
        id: 7,
        date: at(start),
        start_time: at(start),
        end_time: at(end),
        name: name.to_string(),
        lecturer: lecturer.to_string(),
        rooms: rooms.into_iter().map(String::from).collect(),
    }
}

#[test]
fn split_pairs_last_and_first_names() {
    assert_eq!(
        split_lecturers("Müller, Hans, Schmidt, Anna"),
        vec!["Müller, Hans".to_string(), "Schmidt, Anna".to_string()]
    );
}

#[test]
fn split_text_without_comma_gives_trimmed_text() {
    assert_eq!(split_lecturers("  Dr. Weber \t"), vec!["Dr. Weber".to_string()]);
    assert_eq!(split_lecturers("   "), vec!["".to_string()]);
}

#[test]
fn split_empty_text_gives_no_names() {
    assert!(split_lecturers("").is_empty());
}

#[test]
fn split_odd_token_count_keeps_dangling_name() {
    assert_eq!(
        split_lecturers("A, B, C"),
        vec!["A, B".to_string(), "C".to_string()]
    );
    assert_eq!(split_lecturers("A, B,"), vec!["A, B".to_string()]);
    assert_eq!(split_lecturers("A, B"), vec!["A, B".to_string()]);
}

#[test]
fn room_moves_out_of_name() {
    let (name, rooms, online) = normalize_rooms("Algo - Raum: B204".to_string(), vec![]);
    assert_eq!(name, "Algo");
    assert_eq!(rooms, vec!["B204".to_string()]);
    assert!(!online);
}

#[test]
fn room_marker_taken_from_the_end() {
    let (name, rooms, _) = normalize_rooms("X - Raum: A - Raum: B".to_string(), vec![]);
    assert_eq!(name, "X - Raum: A");
    assert_eq!(rooms, vec!["B".to_string()]);
}

#[test]
fn name_without_marker_stays() {
    let (name, rooms, online) = normalize_rooms("Analysis".to_string(), vec![]);
    assert_eq!(name, "Analysis");
    assert!(rooms.is_empty());
    assert!(!online);
}

#[test]
fn online_room_sets_online() {
    let (name, rooms, online) =
        normalize_rooms("Algo - Raum: B204".to_string(), vec!["Online Session".to_string()]);
    assert_eq!(name, "Algo - Raum: B204");
    assert_eq!(rooms, vec!["Online Session".to_string()]);
    assert!(online);
}

#[test]
fn ordinary_rooms_are_not_online() {
    let (_, _, online) = normalize_rooms("Algo".to_string(), vec!["B204".to_string(), "A1".to_string()]);
    assert!(!online);
}

#[test]
fn online_check_ignores_letter_case() {
    assert!(any_room_online(&vec!["B204".to_string(), "ONLINE".to_string()]));
    assert!(!mentions_online("ONLINE"));
    assert!(mentions_online("room online 2"));
}

#[test]
fn ten_hours_without_rooms_is_holiday() {
    assert_eq!(
        classify("Tag der deutschen Einheit", true, &at(EIGHT), &at(EIGHT + 36000)),
        EventType::Holiday
    );
    assert_eq!(
        classify("Tag der deutschen Einheit", false, &at(EIGHT), &at(EIGHT + 36000)),
        EventType::Lecture
    );
    assert_eq!(
        classify("Tag der deutschen Einheit", true, &at(EIGHT), &at(EIGHT + 32400)),
        EventType::Lecture
    );
}

#[test]
fn exam_words() {
    let s = at(EIGHT);
    let e = at(SIXTEEN_HUNDRED);
    assert_eq!(classify("Mathe-klausur Nachschreiber", false, &s, &e), EventType::Exam);
    assert_eq!(classify("prüfung Statistik", false, &s, &e), EventType::Exam);
    assert_eq!(classify("prüfungswahl", false, &s, &e), EventType::Exam);
    assert_eq!(classify("prüfungen Statistik", false, &s, &e), EventType::Lecture);
    assert_eq!(classify("Prüfung Statistik", false, &s, &e), EventType::Lecture);
    assert_eq!(classify("Statistik klausur", false, &s, &e), EventType::Lecture);
}

#[test]
fn klausurwahl_does_not_end_with_klausur() {
    let s = at(EIGHT);
    let e = at(SIXTEEN_HUNDRED);
    assert_eq!(classify("Klausurwahl Mathe", false, &s, &e), EventType::Lecture);
    assert_eq!(classify("Mathematikklausur", false, &s, &e), EventType::Exam);
}

#[test]
fn exam_wins_over_holiday() {
    assert_eq!(
        classify("klausur", true, &at(EIGHT), &at(EIGHT + 36000)),
        EventType::Exam
    );
}

#[test]
fn lecture_from_raw_record() {
    let l = Lecture::from(raw(
        "Algo - Raum: B204",
        "Müller, Hans, Schmidt, Anna",
        vec![],
        EIGHT,
        SIXTEEN_HUNDRED,
    ));
    assert_eq!(l.id(), 7);
    assert_eq!(l.name(), "Algo");
    assert_eq!(l.rooms(), &vec!["B204".to_string()]);
    assert_eq!(
        l.lecturers(),
        &vec!["Müller, Hans".to_string(), "Schmidt, Anna".to_string()]
    );
    assert!(!l.online());
    assert_eq!(*l.event_type(), EventType::Lecture);
    assert_eq!(l.start_time().secs(), EIGHT);
    assert_eq!(l.end_time().secs(), SIXTEEN_HUNDRED);
    assert_eq!(l.date().secs(), EIGHT);
}

#[test]
fn lecture_from_holiday_record() {
    let l = Lecture::from(raw("Feiertag", "", vec![], EIGHT, EIGHT + 36000));
    assert!(l.lecturers().is_empty());
    assert!(l.rooms().is_empty());
    assert_eq!(*l.event_type(), EventType::Holiday);
}

#[test]
fn room_from_name_keeps_holiday_away() {
    let l = Lecture::from(raw("Feiertag - Raum: Aula", "", vec![], EIGHT, EIGHT + 36000));
    assert_eq!(l.rooms(), &vec!["Aula".to_string()]);
    assert_eq!(*l.event_type(), EventType::Lecture);
}

#[test]
fn first_word_ends_at_any_whitespace() {
    let s = at(EIGHT);
    let ten = at(EIGHT + 36000);
    assert_eq!(classify("x\tklausur", true, &s, &ten), EventType::Holiday);
    assert_eq!(classify("Mathe-klausur\tNachschreiber", false, &s, &ten), EventType::Exam);
    assert_eq!(classify("  prüfung Statistik", false, &s, &ten), EventType::Exam);
    assert_eq!(classify("\u{a0}klausur", false, &s, &ten), EventType::Exam);
    assert_eq!(classify(" \t ", true, &s, &ten), EventType::Holiday);
    assert_eq!(classify("", false, &s, &ten), EventType::Lecture);
}

#[test]
fn lecture_from_tab_separated_name_is_holiday() {
    let l = Lecture::from(raw("x\tklausur", "", vec![], EIGHT, EIGHT + 36000));
    assert_eq!(*l.event_type(), EventType::Holiday);
}
