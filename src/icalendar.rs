//! Rendering of lectures as an iCalendar document: property escaping, line
//! folding at 72 octets, and the layout of events and of the calendar.
use vstd::prelude::*;
use vstd::utf8::is_ascii_chars;
use crate::lecture::{views, Lecture, LectureView};
use crate::text::{push_str, string_of, utf8_len, utf8_width, char_width};
use crate::timestamp::{
    creation_stamp, digit, digit_char, ical_datetime, push_creation_stamp, push_ical_datetime,
    utc_fields_of, utc_now_secs, Timestamp, UtcFields,
};

verus! {

/// Most content octets on one physical line; a continuation line carries a
/// leading space besides.
pub open spec fn max_line_octets() -> nat {
    72
}

/// The line terminator.
pub open spec fn crlf() -> Seq<char> {
    seq!['\r', '\n']
}

/// A line written as it is.
pub open spec fn short_line(line: Seq<char>) -> Seq<char> {
    line + crlf()
}

/// The physical lines that the rest `s` of a logical line fills, where `cur`
/// is the physical line begun so far and `used` its content octets: a
/// character that would take the content past 72 octets starts a new line,
/// which begins with a space.
pub open spec fn fold_lines(s: Seq<char>, cur: Seq<char>, used: nat) -> Seq<Seq<char>>
    decreases s.len(),
{
    if s.len() == 0 {
        seq![cur]
    } else if used + utf8_width(s[0]) > max_line_octets() {
        seq![cur] + fold_lines(s.drop_first(), seq![' ', s[0]], utf8_width(s[0]))
    } else {
        fold_lines(s.drop_first(), cur.push(s[0]), used + utf8_width(s[0]))
    }
}

/// The physical lines of a logical line; none for an empty one.
pub open spec fn physical_lines(line: Seq<char>) -> Seq<Seq<char>> {
    if line.len() == 0 {
        seq![]
    } else {
        fold_lines(line, seq![], 0)
    }
}

/// Lines, each followed by CRLF.
pub open spec fn lines_text(lines: Seq<Seq<char>>) -> Seq<char>
    decreases lines.len(),
{
    if lines.len() == 0 {
        seq![]
    } else {
        lines[0] + crlf() + lines_text(lines.drop_first())
    }
}

/// A logical line as it is written: folded.
pub open spec fn folded(line: Seq<char>) -> Seq<char> {
    lines_text(physical_lines(line))
}

/// `s` with each comma escaped as `\,`.
pub open spec fn escape_commas(s: Seq<char>) -> Seq<char>
    decreases s.len(),
{
    if s.len() == 0 {
        seq![]
    } else if s.last() == ',' {
        escape_commas(s.drop_last()) + seq!['\\', ',']
    } else {
        escape_commas(s.drop_last()).push(s.last())
    }
}

/// A property line `KEY:value` with the value escaped.
pub open spec fn field_line(key: Seq<char>, value: Seq<char>) -> Seq<char> {
    key + seq![':'] + escape_commas(value)
}

/// The parts joined with `sep` between each two.
pub open spec fn join(parts: Seq<Seq<char>>, sep: Seq<char>) -> Seq<char>
    decreases parts.len(),
{
    if parts.len() == 0 {
        seq![]
    } else if parts.len() == 1 {
        parts[0]
    } else {
        join(parts.drop_last(), sep) + sep + parts.last()
    }
}

/// `n` in decimal.
pub open spec fn decimal(n: nat) -> Seq<char>
    decreases n,
{
    if n < 10 {
        seq![digit(n as int)]
    } else {
        decimal(n / 10).push(digit((n % 10) as int))
    }
}

/// One `ATTENDEE` line per lecturer.
pub open spec fn attendees_text(lecturers: Seq<Seq<char>>) -> Seq<char>
    decreases lecturers.len(),
{
    if lecturers.len() == 0 {
        seq![]
    } else {
        attendees_text(lecturers.drop_last()) + folded(
            "ATTENDEE;CN=\""@ + lecturers.last() + "\":noreply@mosbach.dhbw.de"@,
        )
    }
}

/// The opening lines of an event: its identifier and its times.
pub open spec fn event_head_text(l: LectureView, stamp: UtcFields) -> Seq<char> {
    short_line("BEGIN:VEVENT"@) + short_line(
        "UID:"@ + decimal(l.id as nat) + "@mosbach.dhbw.de"@,
    ) + short_line("DTSTAMP:"@ + ical_datetime(stamp)) + short_line(
        "DTSTART:"@ + ical_datetime(l.start_time.spec_fields()),
    ) + short_line("DTEND:"@ + ical_datetime(l.end_time.spec_fields()))
}

/// The escaped properties of an event: name, rooms and lecturers.
pub open spec fn event_fields_text(l: LectureView) -> Seq<char> {
    folded(field_line("SUMMARY"@, l.name)) + folded(
        field_line("LOCATION"@, join(l.rooms, ", "@)),
    ) + folded(field_line("DESCRIPTION"@, "Dozent:innen: "@ + join(l.lecturers, ", "@)))
}

/// The event block of one lecture, stamped with `stamp`.
#[verifier::opaque]
pub open spec fn event_text(l: LectureView, stamp: UtcFields) -> Seq<char> {
    event_head_text(l, stamp) + event_fields_text(l) + attendees_text(l.lecturers) + short_line(
        "END:VEVENT"@,
    )
}

/// The event blocks of the lectures, in order.
pub open spec fn events_text(ls: Seq<LectureView>, stamp: UtcFields) -> Seq<char>
    decreases ls.len(),
{
    if ls.len() == 0 {
        seq![]
    } else {
        events_text(ls.drop_last(), stamp) + event_text(ls.last(), stamp)
    }
}

/// The lines before the events.
pub open spec fn header_text(now: UtcFields) -> Seq<char> {
    short_line("BEGIN:VCALENDAR"@) + short_line("VERSION:2.0"@) + short_line(
        "PRODID:-//Siphalor//StuV2iCal//DE"@,
    ) + short_line("X-STUV2ICAL-CREATION:"@ + creation_stamp(now))
}

/// The line after the events.
pub open spec fn footer_text() -> Seq<char> {
    short_line("END:VCALENDAR"@)
}

/// The calendar document of the lectures, created at `now`.
pub open spec fn calendar_text(ls: Seq<LectureView>, now: UtcFields) -> Seq<char> {
    header_text(now) + events_text(ls, now) + footer_text()
}

/// The views of a sequence of lectures.
pub open spec fn lecture_views(ls: Seq<Lecture>) -> Seq<LectureView> {
    ls.map_values(|l: Lecture| l@)
}

/// A physical line fits: the first carries at most 72 octets; a later one
/// begins with a space and carries at most 72 octets after it.
pub open spec fn line_fits(l: Seq<char>, first: bool) -> bool {
    if first {
        utf8_len(l) <= max_line_octets()
    } else {
        l.len() >= 1 && l[0] == ' ' && utf8_len(l.drop_first()) <= max_line_octets()
    }
}

proof fn lemma_utf8_len_push(s: Seq<char>, c: char)
    ensures
        utf8_len(s.push(c)) == utf8_len(s) + utf8_width(c),
    decreases s.len(),
{
    if s.len() == 0 {
        assert(s.push(c).drop_first() =~= Seq::<char>::empty());
        assert(utf8_len(s.push(c).drop_first()) == 0);
        assert(s.push(c)[0] == c);
    } else {
        assert(s.push(c).drop_first() =~= s.drop_first().push(c));
        assert(s.push(c)[0] == s[0]);
        lemma_utf8_len_push(s.drop_first(), c);
    }
}

proof fn lemma_fold_lines_fit(s: Seq<char>, cur: Seq<char>, used: nat, first: bool)
    requires
        used <= max_line_octets(),
        first ==> utf8_len(cur) == used,
        !first ==> cur.len() >= 1 && cur[0] == ' ' && utf8_len(cur.drop_first()) == used,
    ensures
        forall|k: int|
            0 <= k < fold_lines(s, cur, used).len() ==> line_fits(
                #[trigger] fold_lines(s, cur, used)[k],
                first && k == 0,
            ),
    decreases s.len(),
{
    if s.len() == 0 {
        assert(fold_lines(s, cur, used) == seq![cur]);
    } else {
        let c = s[0];
        let w = utf8_width(c);
        if used + w > max_line_octets() {
            let fresh = seq![' ', c];
            assert(fresh.drop_first() =~= seq![c]);
            assert(seq![c].drop_first() =~= Seq::<char>::empty());
            assert(utf8_len(seq![c].drop_first()) == 0);
            assert(utf8_len(fresh.drop_first()) == w);
            assert(fresh[0] == ' ');
            lemma_fold_lines_fit(s.drop_first(), fresh, w, false);
            let rest = fold_lines(s.drop_first(), fresh, w);
            assert forall|k: int| 0 <= k < fold_lines(s, cur, used).len() implies line_fits(
                #[trigger] fold_lines(s, cur, used)[k],
                first && k == 0,
            ) by {
                if k > 0 {
                    assert(fold_lines(s, cur, used)[k] == rest[k - 1]);
                }
            }
        } else {
            lemma_utf8_len_push(cur, c);
            if !first {
                assert(cur.push(c).drop_first() =~= cur.drop_first().push(c));
                lemma_utf8_len_push(cur.drop_first(), c);
            }
            lemma_fold_lines_fit(s.drop_first(), cur.push(c), used + w, first);
            assert(fold_lines(s, cur, used) == fold_lines(s.drop_first(), cur.push(c), used + w));
        }
    }
}

/// Folding keeps every physical line within the limit: the first carries at
/// most 72 octets, each later one a space and at most 72 octets after it.
/// Lines are cut between characters, so no character's encoding is split.
pub proof fn lemma_folded_lines_fit(line: Seq<char>)
    ensures
        forall|k: int|
            0 <= k < physical_lines(line).len() ==> line_fits(
                #[trigger] physical_lines(line)[k],
                k == 0,
            ),
{
    if line.len() > 0 {
        lemma_fold_lines_fit(line, Seq::<char>::empty(), 0, true);
    }
}

/// Every comma of an escaped value stands right after a backslash.
pub proof fn lemma_commas_escaped(value: Seq<char>)
    ensures
        forall|i: int|
            0 <= i < escape_commas(value).len() && #[trigger] escape_commas(value)[i] == ','
                ==> i >= 1 && escape_commas(value)[i - 1] == '\\',
    decreases value.len(),
{
    if value.len() > 0 {
        lemma_commas_escaped(value.drop_last());
        let e = escape_commas(value.drop_last());
        assert forall|i: int|
            0 <= i < escape_commas(value).len() && #[trigger] escape_commas(value)[i] == ','
                implies i >= 1 && escape_commas(value)[i - 1] == '\\' by {
            if i < e.len() {
                assert(escape_commas(value)[i] == e[i]);
                assert(e[i] == ',');
            }
        }
    }
}

/// The calendar of no lectures holds the header lines and the footer line
/// and nothing else.
pub proof fn lemma_empty_calendar(now: UtcFields)
    ensures
        calendar_text(Seq::<LectureView>::empty(), now) == header_text(now) + footer_text(),
{
    assert(events_text(Seq::<LectureView>::empty(), now) == Seq::<char>::empty());
    assert(header_text(now) + Seq::<char>::empty() =~= header_text(now));
}

/// A physical line of a document is within the limit: at most 72 octets, or
/// a leading space and at most 72 octets after it.
pub open spec fn doc_line_fits(l: Seq<char>) -> bool {
    ||| utf8_len(l) <= max_line_octets()
    ||| (l.len() >= 1 && l[0] == ' ' && utf8_len(l.drop_first()) <= max_line_octets())
}

/// `t` is a run of CRLF-terminated physical lines that are all within the limit.
pub open spec fn fits_in_lines(t: Seq<char>) -> bool {
    exists|ls: Seq<Seq<char>>|
        t == lines_text(ls) && forall|k: int| 0 <= k < ls.len() ==> doc_line_fits(#[trigger] ls[k])
}

spec fn pow10(d: nat) -> nat
    decreases d,
{
    if d == 0 {
        1
    } else {
        10 * pow10((d - 1) as nat)
    }
}

proof fn lemma_lines_text_add(a: Seq<Seq<char>>, b: Seq<Seq<char>>)
    ensures
        lines_text(a + b) == lines_text(a) + lines_text(b),
    decreases a.len(),
{
    if a.len() == 0 {
        assert(a + b =~= b);
        assert(lines_text(a) + lines_text(b) =~= lines_text(b));
    } else {
        assert((a + b).drop_first() =~= a.drop_first() + b);
        assert((a + b)[0] == a[0]);
        lemma_lines_text_add(a.drop_first(), b);
        assert(lines_text(a + b) =~= lines_text(a) + lines_text(b));
    }
}

proof fn lemma_fits_add(t1: Seq<char>, t2: Seq<char>)
    requires
        fits_in_lines(t1),
        fits_in_lines(t2),
    ensures
        fits_in_lines(t1 + t2),
{
    let l1 = choose|ls: Seq<Seq<char>>|
        t1 == lines_text(ls) && forall|k: int| 0 <= k < ls.len() ==> doc_line_fits(#[trigger] ls[k]);
    let l2 = choose|ls: Seq<Seq<char>>|
        t2 == lines_text(ls) && forall|k: int| 0 <= k < ls.len() ==> doc_line_fits(#[trigger] ls[k]);
    lemma_lines_text_add(l1, l2);
    let l = l1 + l2;
    assert forall|k: int| 0 <= k < l.len() implies doc_line_fits(#[trigger] l[k]) by {
        if k < l1.len() {
            assert(l[k] == l1[k]);
        } else {
            assert(l[k] == l2[k - l1.len()]);
        }
    }
    assert(t1 + t2 == lines_text(l));
}

proof fn lemma_empty_fits()
    ensures
        fits_in_lines(Seq::<char>::empty()),
{
    let ls = Seq::<Seq<char>>::empty();
    assert(lines_text(ls) == Seq::<char>::empty());
}

proof fn lemma_utf8_len_ascii(s: Seq<char>)
    requires
        is_ascii_chars(s),
    ensures
        utf8_len(s) == s.len(),
    decreases s.len(),
{
    if s.len() > 0 {
        assert(s[0] <= '\u{7f}');
        assert forall|i: int| 0 <= i < s.drop_first().len() implies '\0' <= #[trigger] s.drop_first()[i]
            <= '\u{7f}' by {
            assert(s.drop_first()[i] == s[i + 1]);
        }
        lemma_utf8_len_ascii(s.drop_first());
    }
}

proof fn lemma_ascii_add(a: Seq<char>, b: Seq<char>)
    requires
        is_ascii_chars(a),
        is_ascii_chars(b),
    ensures
        is_ascii_chars(a + b),
{
    assert forall|i: int| 0 <= i < (a + b).len() implies '\0' <= #[trigger] (a + b)[i] <= '\u{7f}' by {
        if i < a.len() {
            assert((a + b)[i] == a[i]);
        } else {
            assert((a + b)[i] == b[i - a.len()]);
        }
    }
}

proof fn lemma_short_fits(l: Seq<char>)
    requires
        is_ascii_chars(l),
        l.len() <= max_line_octets(),
    ensures
        fits_in_lines(short_line(l)),
{
    lemma_utf8_len_ascii(l);
    let ls = seq![l];
    assert(ls.drop_first() =~= Seq::<Seq<char>>::empty());
    assert(lines_text(ls.drop_first()) == Seq::<char>::empty());
    assert(lines_text(ls) =~= short_line(l));
    assert(doc_line_fits(ls[0]));
}

proof fn lemma_folded_fits(line: Seq<char>)
    ensures
        fits_in_lines(folded(line)),
{
    lemma_folded_lines_fit(line);
    let ls = physical_lines(line);
    assert forall|k: int| 0 <= k < ls.len() implies doc_line_fits(#[trigger] ls[k]) by {
        assert(line_fits(ls[k], k == 0));
    }
}

proof fn lemma_ical_datetime_ascii(f: UtcFields)
    ensures
        is_ascii_chars(ical_datetime(f)),
        ical_datetime(f).len() == 16,
{
    let s = ical_datetime(f);
    assert forall|i: int| 0 <= i < s.len() implies '\0' <= #[trigger] s[i] <= '\u{7f}' by {
    }
}

proof fn lemma_creation_stamp_ascii(f: UtcFields)
    ensures
        is_ascii_chars(creation_stamp(f)),
        creation_stamp(f).len() == 16,
{
    let s = creation_stamp(f);
    assert forall|i: int| 0 <= i < s.len() implies '\0' <= #[trigger] s[i] <= '\u{7f}' by {
    }
}

proof fn lemma_decimal_ascii(n: nat, d: nat)
    requires
        n < pow10(d),
    ensures
        is_ascii_chars(decimal(n)),
        decimal(n).len() <= if d == 0 { 1 } else { d },
    decreases n,
{
    if n >= 10 {
        let p = pow10((d - 1) as nat);
        assert(n / 10 < p) by (nonlinear_arith)
            requires
                n < 10 * p,
        ;
        lemma_decimal_ascii(n / 10, (d - 1) as nat);
        let s = decimal(n);
        assert forall|i: int| 0 <= i < s.len() implies '\0' <= #[trigger] s[i] <= '\u{7f}' by {
            if i < decimal(n / 10).len() {
                assert(s[i] == decimal(n / 10)[i]);
            }
        }
    }
}

proof fn lemma_event_head_fits(l: LectureView, stamp: UtcFields)
    ensures
        fits_in_lines(event_head_text(l, stamp)),
{
    reveal_strlit("BEGIN:VEVENT");
    reveal_strlit("UID:");
    reveal_strlit("@mosbach.dhbw.de");
    reveal_strlit("DTSTAMP:");
    reveal_strlit("DTSTART:");
    reveal_strlit("DTEND:");
    assert(is_ascii_chars("BEGIN:VEVENT"@));
    assert(is_ascii_chars("UID:"@));
    assert(is_ascii_chars("@mosbach.dhbw.de"@));
    assert(is_ascii_chars("DTSTAMP:"@));
    assert(is_ascii_chars("DTSTART:"@));
    assert(is_ascii_chars("DTEND:"@));
    reveal_with_fuel(pow10, 11);
    lemma_decimal_ascii(l.id as nat, 10);
    lemma_ascii_add("UID:"@, decimal(l.id as nat));
    lemma_ascii_add("UID:"@ + decimal(l.id as nat), "@mosbach.dhbw.de"@);
    lemma_ical_datetime_ascii(stamp);
    lemma_ical_datetime_ascii(l.start_time.spec_fields());
    lemma_ical_datetime_ascii(l.end_time.spec_fields());
    lemma_ascii_add("DTSTAMP:"@, ical_datetime(stamp));
    lemma_ascii_add("DTSTART:"@, ical_datetime(l.start_time.spec_fields()));
    lemma_ascii_add("DTEND:"@, ical_datetime(l.end_time.spec_fields()));
    let a = short_line("BEGIN:VEVENT"@);
    let b = short_line("UID:"@ + decimal(l.id as nat) + "@mosbach.dhbw.de"@);
    let c = short_line("DTSTAMP:"@ + ical_datetime(stamp));
    let d = short_line("DTSTART:"@ + ical_datetime(l.start_time.spec_fields()));
    let e = short_line("DTEND:"@ + ical_datetime(l.end_time.spec_fields()));
    lemma_short_fits("BEGIN:VEVENT"@);
    lemma_short_fits("UID:"@ + decimal(l.id as nat) + "@mosbach.dhbw.de"@);
    lemma_short_fits("DTSTAMP:"@ + ical_datetime(stamp));
    lemma_short_fits("DTSTART:"@ + ical_datetime(l.start_time.spec_fields()));
    lemma_short_fits("DTEND:"@ + ical_datetime(l.end_time.spec_fields()));
    lemma_fits_add(a, b);
    lemma_fits_add(a + b, c);
    lemma_fits_add(a + b + c, d);
    lemma_fits_add(a + b + c + d, e);
}

proof fn lemma_attendees_fit(lecturers: Seq<Seq<char>>)
    ensures
        fits_in_lines(attendees_text(lecturers)),
    decreases lecturers.len(),
{
    if lecturers.len() == 0 {
        lemma_empty_fits();
    } else {
        lemma_attendees_fit(lecturers.drop_last());
        let line = "ATTENDEE;CN=\""@ + lecturers.last() + "\":noreply@mosbach.dhbw.de"@;
        lemma_folded_fits(line);
        lemma_fits_add(attendees_text(lecturers.drop_last()), folded(line));
    }
}

proof fn lemma_event_fields_fit(l: LectureView)
    ensures
        fits_in_lines(event_fields_text(l)),
{
    let v1 = field_line("SUMMARY"@, l.name);
    let v2 = field_line("LOCATION"@, join(l.rooms, ", "@));
    let v3 = field_line("DESCRIPTION"@, "Dozent:innen: "@ + join(l.lecturers, ", "@));
    lemma_folded_fits(v1);
    lemma_folded_fits(v2);
    lemma_folded_fits(v3);
    lemma_fits_add(folded(v1), folded(v2));
    lemma_fits_add(folded(v1) + folded(v2), folded(v3));
}

proof fn lemma_event_fits(l: LectureView, stamp: UtcFields)
    ensures
        fits_in_lines(event_text(l, stamp)),
{
    let h = event_head_text(l, stamp);
    let f = event_fields_text(l);
    let at = attendees_text(l.lecturers);
    let end = short_line("END:VEVENT"@);
    lemma_event_head_fits(l, stamp);
    lemma_event_fields_fit(l);
    lemma_attendees_fit(l.lecturers);
    reveal_strlit("END:VEVENT");
    assert(is_ascii_chars("END:VEVENT"@));
    lemma_short_fits("END:VEVENT"@);
    lemma_fits_add(h, f);
    lemma_fits_add(h + f, at);
    lemma_fits_add(h + f + at, end);
    reveal(event_text);
}

proof fn lemma_events_fit(ls: Seq<LectureView>, stamp: UtcFields)
    ensures
        fits_in_lines(events_text(ls, stamp)),
    decreases ls.len(),
{
    if ls.len() == 0 {
        lemma_empty_fits();
    } else {
        lemma_events_fit(ls.drop_last(), stamp);
        lemma_event_fits(ls.last(), stamp);
        lemma_fits_add(events_text(ls.drop_last(), stamp), event_text(ls.last(), stamp));
    }
}

/// Every physical line of a calendar document is within the limit: at most
/// 72 octets, or a leading space and at most 72 octets after it. Lines are
/// cut between characters, so no character's encoding is split.
pub proof fn lemma_calendar_lines_fit(ls: Seq<LectureView>, now: UtcFields)
    ensures
        fits_in_lines(calendar_text(ls, now)),
{
    reveal_strlit("BEGIN:VCALENDAR");
    reveal_strlit("VERSION:2.0");
    reveal_strlit("PRODID:-//Siphalor//StuV2iCal//DE");
    reveal_strlit("X-STUV2ICAL-CREATION:");
    reveal_strlit("END:VCALENDAR");
    assert(is_ascii_chars("BEGIN:VCALENDAR"@));
    assert(is_ascii_chars("VERSION:2.0"@));
    assert(is_ascii_chars("PRODID:-//Siphalor//StuV2iCal//DE"@));
    assert(is_ascii_chars("X-STUV2ICAL-CREATION:"@));
    assert(is_ascii_chars("END:VCALENDAR"@));
    lemma_creation_stamp_ascii(now);
    lemma_ascii_add("X-STUV2ICAL-CREATION:"@, creation_stamp(now));
    let a = short_line("BEGIN:VCALENDAR"@);
    let b = short_line("VERSION:2.0"@);
    let c = short_line("PRODID:-//Siphalor//StuV2iCal//DE"@);
    let d = short_line("X-STUV2ICAL-CREATION:"@ + creation_stamp(now));
    lemma_short_fits("BEGIN:VCALENDAR"@);
    lemma_short_fits("VERSION:2.0"@);
    lemma_short_fits("PRODID:-//Siphalor//StuV2iCal//DE"@);
    lemma_short_fits("X-STUV2ICAL-CREATION:"@ + creation_stamp(now));
    lemma_short_fits("END:VCALENDAR"@);
    lemma_fits_add(a, b);
    lemma_fits_add(a + b, c);
    lemma_fits_add(a + b + c, d);
    lemma_events_fit(ls, now);
    lemma_fits_add(header_text(now), events_text(ls, now));
    lemma_fits_add(header_text(now) + events_text(ls, now), footer_text());
}

/// Appends all of `v`.
fn push_all(out: &mut Vec<char>, v: &Vec<char>)
    ensures
        final(out)@ == old(out)@ + v@,
{
    let mut i: usize = 0;
    while i < v.len()
        invariant
            i <= v@.len(),
            out@ == old(out)@ + v@.subrange(0, i as int),
        decreases v@.len() - i,
    {
        out.push(v[i]);
        i = i + 1;
        assert(out@ =~= old(out)@ + v@.subrange(0, i as int));
    }
    assert(v@.subrange(0, v@.len() as int) =~= v@);
}

/// Appends CRLF.
fn push_crlf(out: &mut Vec<char>)
    ensures
        final(out)@ == old(out)@ + crlf(),
{
    out.push('\r');
    out.push('\n');
    assert(out@ =~= old(out)@ + crlf());
}

/// Writes a line that needs no folding.
pub fn write_short_line(out: &mut Vec<char>, line: &str)
    ensures
        final(out)@ == old(out)@ + short_line(line@),
{
    push_str(out, line);
    push_crlf(out);
    assert(out@ =~= old(out)@ + short_line(line@));
}

/// Writes a line of any length, folded into physical lines of at most 72
/// content octets.
pub fn write_line(out: &mut Vec<char>, line: &Vec<char>)
    ensures
        final(out)@ == old(out)@ + folded(line@),
{
    let n = line.len();
    if n == 0 {
        assert(out@ =~= old(out)@ + folded(line@));
        return;
    }
    let mut cur: Vec<char> = Vec::new();
    let mut used: usize = 0;
    let mut i: usize = 0;
    assert(line@.skip(0) =~= line@);
    while i < n
        invariant
            n == line@.len(),
            i <= n,
            used <= 72,
            old(out)@ + folded(line@) == out@ + lines_text(
                fold_lines(line@.skip(i as int), cur@, used as nat),
            ),
        decreases n - i,
    {
        let ghost s = line@.skip(i as int);
        let ghost rest = line@.skip(i + 1);
        assert(s.drop_first() =~= rest);
        let c = line[i];
        let w = char_width(c);
        if used + w > 72 {
            let ghost tail = fold_lines(rest, seq![' ', c], w as nat);
            assert((seq![cur@] + tail).drop_first() =~= tail);
            push_all(out, &cur);
            push_crlf(out);
            cur = Vec::new();
            cur.push(' ');
            cur.push(c);
            assert(cur@ =~= seq![' ', c]);
            used = w;
        } else {
            cur.push(c);
            used = used + w;
        }
        i = i + 1;
    }
    assert(line@.skip(n as int).len() == 0);
    assert(fold_lines(line@.skip(n as int), cur@, used as nat) == seq![cur@]);
    assert(seq![cur@].drop_first() =~= Seq::<Seq<char>>::empty());
    assert(lines_text(seq![cur@].drop_first()) == Seq::<char>::empty());
    assert(lines_text(seq![cur@]) =~= cur@ + crlf());
    push_all(out, &cur);
    push_crlf(out);
}

/// `value` with each comma escaped as `\,`.
pub fn escape_field_value(value: &Vec<char>) -> (r: Vec<char>)
    ensures
        r@ == escape_commas(value@),
{
    let mut r: Vec<char> = Vec::new();
    let mut i: usize = 0;
    while i < value.len()
        invariant
            i <= value@.len(),
            r@ == escape_commas(value@.take(i as int)),
        decreases value@.len() - i,
    {
        assert(value@.take(i + 1).drop_last() =~= value@.take(i as int));
        let c = value[i];
        if c == ',' {
            r.push('\\');
            r.push(',');
        } else {
            r.push(c);
        }
        i = i + 1;
        assert(r@ =~= escape_commas(value@.take(i as int)));
    }
    assert(value@.take(value@.len() as int) =~= value@);
    r
}

/// Writes the property `key` with its value escaped, folded.
pub fn write_field(out: &mut Vec<char>, key: &str, value: &Vec<char>)
    ensures
        final(out)@ == old(out)@ + folded(field_line(key@, value@)),
{
    let mut line: Vec<char> = Vec::new();
    push_str(&mut line, key);
    line.push(':');
    let escaped = escape_field_value(value);
    push_all(&mut line, &escaped);
    assert(line@ =~= field_line(key@, value@));
    write_line(out, &line);
}

/// Appends the parts joined with `sep`.
pub fn push_joined(out: &mut Vec<char>, parts: &Vec<String>, sep: &str)
    ensures
        final(out)@ == old(out)@ + join(views(parts@), sep@),
{
    let mut i: usize = 0;
    while i < parts.len()
        invariant
            i <= parts@.len(),
            out@ == old(out)@ + join(views(parts@).take(i as int), sep@),
        decreases parts@.len() - i,
    {
        let ghost before = out@;
        let ghost t = views(parts@).take(i + 1);
        assert(t.drop_last() =~= views(parts@).take(i as int));
        assert(t.last() == parts@[i as int]@);
        if i > 0 {
            push_str(out, sep);
        }
        push_str(out, parts[i].as_str());
        proof {
            if i == 0 {
                assert(views(parts@).take(0).len() == 0);
                assert(out@ =~= old(out)@ + join(t, sep@));
            } else {
                assert(out@ =~= old(out)@ + join(t, sep@));
            }
        }
        i = i + 1;
    }
    assert(views(parts@).take(parts@.len() as int) =~= views(parts@));
}

/// Appends `n` in decimal.
pub fn push_decimal(out: &mut Vec<char>, n: u32)
    ensures
        final(out)@ == old(out)@ + decimal(n as nat),
    decreases n,
{
    if n >= 10 {
        push_decimal(out, n / 10);
    }
    out.push(digit_char(n % 10));
    assert(out@ =~= old(out)@ + decimal(n as nat));
}

/// Writes the opening lines of the event of one lecture.
fn write_event_head(out: &mut Vec<char>, lecture: &Lecture, stamp: &Timestamp)
    ensures
        final(out)@ == old(out)@ + event_head_text(lecture@, stamp.spec_fields()),
{
    let ghost l = lecture@;
    write_short_line(out, "BEGIN:VEVENT");
    let ghost o1 = out@;
    let mut uid: Vec<char> = Vec::new();
    push_str(&mut uid, "UID:");
    push_decimal(&mut uid, lecture.id());
    push_str(&mut uid, "@mosbach.dhbw.de");
    push_all(out, &uid);
    push_crlf(out);
    let ghost o2 = out@;
    push_str(out, "DTSTAMP:");
    push_ical_datetime(out, &stamp.fields());
    push_crlf(out);
    let ghost o3 = out@;
    push_str(out, "DTSTART:");
    push_ical_datetime(out, &lecture.start_time().fields());
    push_crlf(out);
    let ghost o4 = out@;
    push_str(out, "DTEND:");
    push_ical_datetime(out, &lecture.end_time().fields());
    push_crlf(out);
    assert(o2 =~= o1 + short_line("UID:"@ + decimal(l.id as nat) + "@mosbach.dhbw.de"@));
    assert(o3 =~= o2 + short_line("DTSTAMP:"@ + ical_datetime(stamp.spec_fields())));
    assert(o4 =~= o3 + short_line("DTSTART:"@ + ical_datetime(l.start_time.spec_fields())));
    assert(out@ =~= o4 + short_line("DTEND:"@ + ical_datetime(l.end_time.spec_fields())));
    assert(out@ =~= old(out)@ + event_head_text(l, stamp.spec_fields()));
}

/// Writes the escaped properties of the event of one lecture.
fn write_event_fields(out: &mut Vec<char>, lecture: &Lecture)
    ensures
        final(out)@ == old(out)@ + event_fields_text(lecture@),
{
    let name: Vec<char> = crate::text::chars_of(lecture.name().as_str());
    write_field(out, "SUMMARY", &name);
    let mut rooms: Vec<char> = Vec::new();
    push_joined(&mut rooms, lecture.rooms(), ", ");
    write_field(out, "LOCATION", &rooms);
    let mut description: Vec<char> = Vec::new();
    push_str(&mut description, "Dozent:innen: ");
    push_joined(&mut description, lecture.lecturers(), ", ");
    write_field(out, "DESCRIPTION", &description);
    assert(out@ =~= old(out)@ + event_fields_text(lecture@));
}

/// Writes one `ATTENDEE` line per lecturer.
fn write_attendees(out: &mut Vec<char>, lecturers: &Vec<String>)
    ensures
        final(out)@ == old(out)@ + attendees_text(views(lecturers@)),
{
    let ghost ls = views(lecturers@);
    let mut i: usize = 0;
    assert(ls.take(0).len() == 0);
    while i < lecturers.len()
        invariant
            ls == views(lecturers@),
            i <= lecturers@.len(),
            out@ == old(out)@ + attendees_text(ls.take(i as int)),
        decreases lecturers@.len() - i,
    {
        let ghost o = out@;
        let ghost t = ls.take(i + 1);
        assert(t.drop_last() =~= ls.take(i as int));
        assert(t.last() == lecturers@[i as int]@);
        let mut line: Vec<char> = Vec::new();
        push_str(&mut line, "ATTENDEE;CN=\"");
        push_str(&mut line, lecturers[i].as_str());
        push_str(&mut line, "\":noreply@mosbach.dhbw.de");
        assert(line@ =~= "ATTENDEE;CN=\""@ + t.last() + "\":noreply@mosbach.dhbw.de"@);
        write_line(out, &line);
        assert(out@ =~= old(out)@ + attendees_text(t));
        i = i + 1;
    }
    assert(ls.take(lecturers@.len() as int) =~= ls);
}

/// Writes the event block of one lecture, stamped with `stamp`.
pub fn write_lecture(out: &mut Vec<char>, lecture: &Lecture, stamp: &Timestamp)
    ensures
        final(out)@ == old(out)@ + event_text(lecture@, stamp.spec_fields()),
{
    write_event_head(out, lecture, stamp);
    write_event_fields(out, lecture);
    write_attendees(out, lecture.lecturers());
    write_short_line(out, "END:VEVENT");
    reveal(event_text);
    assert(out@ =~= old(out)@ + event_text(lecture@, stamp.spec_fields()));
}

/// Writes the lines before the events.
fn write_header(out: &mut Vec<char>, now: &UtcFields)
    requires
        now.valid(),
    ensures
        final(out)@ == old(out)@ + header_text(*now),
{
    write_short_line(out, "BEGIN:VCALENDAR");
    write_short_line(out, "VERSION:2.0");
    write_short_line(out, "PRODID:-//Siphalor//StuV2iCal//DE");
    push_str(out, "X-STUV2ICAL-CREATION:");
    push_creation_stamp(out, now);
    push_crlf(out);
    assert(out@ =~= old(out)@ + header_text(*now));
}

/// The calendar document of the lectures, created at `now`.
pub fn render_calendar(lectures: &Vec<Lecture>, now: &Timestamp) -> (r: String)
    ensures
        r@ == calendar_text(lecture_views(lectures@), now.spec_fields()),
{
    let f = now.fields();
    let mut out: Vec<char> = Vec::new();
    write_header(&mut out, &f);
    assert(out@ =~= header_text(f));
    let mut i: usize = 0;
    while i < lectures.len()
        invariant
            i <= lectures@.len(),
            out@ == header_text(f) + events_text(lecture_views(lectures@).take(i as int), f),
            f == now.spec_fields(),
        decreases lectures@.len() - i,
    {
        let ghost t = lecture_views(lectures@).take(i + 1);
        assert(t.drop_last() =~= lecture_views(lectures@).take(i as int));
        assert(t.last() == lectures@[i as int]@);
        write_lecture(&mut out, &lectures[i], now);
        assert(out@ =~= header_text(f) + events_text(t, f));
        i = i + 1;
    }
    assert(lecture_views(lectures@).take(lectures@.len() as int) =~= lecture_views(lectures@));
    write_short_line(&mut out, "END:VCALENDAR");
    assert(out@ =~= calendar_text(lecture_views(lectures@), f));
    string_of(&out)
}

/// The calendar document of the lectures, created now; `None` when the
/// clock reads an instant whose year is not in 0..=9999.
pub fn write_icalendar(lectures: &Vec<Lecture>) -> (r: Option<String>)
    ensures
        r matches Some(s) ==> exists|f: UtcFields|
            f.valid() && (exists|secs: int| utc_fields_of(secs) == Some(f)) && s@ == calendar_text(
                lecture_views(lectures@),
                f,
            ),
{
    match Timestamp::from_secs(utc_now_secs()) {
        Some(now) => {
            let f = now.fields();
            let s = render_calendar(lectures, &now);
            assert(utc_fields_of(now.spec_secs()) == Some(f));
            assert(f.valid() && (exists|secs: int| utc_fields_of(secs) == Some(f)) && s@
                == calendar_text(lecture_views(lectures@), f));
            Some(s)
        },
        None => None,
    }
}

} // verus!
