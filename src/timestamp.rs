//! Instants in UTC, their calendar fields, and the two fixed text formats
//! that a calendar document uses for them.
use vstd::prelude::*;
use crate::text::chars_of;
use chrono::{Datelike, Timelike};

verus! {

/// The calendar fields of an instant in UTC, to the second.
#[derive(Clone, Copy, Debug, PartialEq, Eq, Structural)]
pub struct UtcFields {
    pub year: i32,
    pub month: u32,
    pub day: u32,
    pub hour: u32,
    pub minute: u32,
    pub second: u32,
}

impl UtcFields {
    /// Each field lies in its calendar range, and the year has four digits.
    pub open spec fn valid(&self) -> bool {
        &&& 0 <= self.year <= 9999
        &&& 1 <= self.month <= 12
        &&& 1 <= self.day <= 31
        &&& self.hour < 24
        &&& self.minute < 60
        &&& self.second < 60
    }
}

/// What chrono gives as the UTC calendar fields of `secs` seconds after the
/// Unix epoch, or `None` where that instant lies outside its range.
pub uninterp spec fn utc_fields_of(secs: int) -> Option<UtcFields>;

/// Relies on `chrono::DateTime::<Utc>::from_timestamp` and the `Datelike` /
/// `Timelike` accessors: the result depends on `secs` alone, and its month,
/// day, hour, minute and second lie in their documented ranges.
#[verifier::external_body]
fn utc_fields(secs: i64) -> (r: Option<UtcFields>)
    ensures
        r == utc_fields_of(secs as int),
        r matches Some(f) ==> 1 <= f.month <= 12 && 1 <= f.day <= 31 && f.hour < 24 && f.minute
            < 60 && f.second < 60,
{
    match chrono::DateTime::from_timestamp(secs, 0) {
        Some(t) => Some(
            UtcFields {
                year: t.year(),
                month: t.month(),
                day: t.day(),
                hour: t.hour(),
                minute: t.minute(),
                second: t.second(),
            },
        ),
        None => None,
    }
}

/// Relies on `chrono::Utc::now`: the current time in whole seconds since the
/// Unix epoch. Nothing is known of its value.
#[verifier::external_body]
pub(crate) fn utc_now_secs() -> i64 {
    chrono::Utc::now().timestamp()
}

/// An instant in UTC, to the second, whose year has four digits.
#[derive(Clone, Copy, Debug)]
pub struct Timestamp {
    secs: i64,
    fields: UtcFields,
}

impl Timestamp {
    #[verifier::type_invariant]
    pub closed spec fn wf(self) -> bool {
        &&& utc_fields_of(self.secs as int) == Some(self.fields)
        &&& self.fields.valid()
    }

    /// Seconds since the Unix epoch.
    pub closed spec fn spec_secs(self) -> int {
        self.secs as int
    }

    /// The calendar fields of this instant.
    pub closed spec fn spec_fields(self) -> UtcFields {
        self.fields
    }

    /// The instant `secs` seconds after the Unix epoch; `None` where it has no
    /// calendar fields or its year is not in 0..=9999.
    pub fn from_secs(secs: i64) -> (r: Option<Timestamp>)
        ensures
            r is Some <==> (utc_fields_of(secs as int) matches Some(f) && 0 <= f.year <= 9999),
            r matches Some(t) ==> t.spec_secs() == secs && Some(t.spec_fields()) == utc_fields_of(
                secs as int,
            ),
    {
        match utc_fields(secs) {
            Some(f) => {
                if 0 <= f.year && f.year <= 9999 {
                    Some(Timestamp { secs, fields: f })
                } else {
                    None
                }
            },
            None => None,
        }
    }

    /// Seconds since the Unix epoch.
    pub fn secs(&self) -> (r: i64)
        ensures
            r == self.spec_secs(),
    {
        self.secs
    }

    /// The calendar fields of this instant.
    pub fn fields(&self) -> (r: UtcFields)
        ensures
            r == self.spec_fields(),
            r.valid(),
            utc_fields_of(self.spec_secs()) == Some(r),
    {
        proof {
            use_type_invariant(self);
        }
        self.fields
    }
}

/// The decimal digit for `n` in 0..=9.
pub open spec fn digit(n: int) -> char {
    if n == 0 {
        '0'
    } else if n == 1 {
        '1'
    } else if n == 2 {
        '2'
    } else if n == 3 {
        '3'
    } else if n == 4 {
        '4'
    } else if n == 5 {
        '5'
    } else if n == 6 {
        '6'
    } else if n == 7 {
        '7'
    } else if n == 8 {
        '8'
    } else {
        '9'
    }
}

/// `n` in 0..=99 as two digits.
pub open spec fn pad2(n: int) -> Seq<char> {
    seq![digit(n / 10), digit(n % 10)]
}

/// `n` in 0..=9999 as four digits.
pub open spec fn pad4(n: int) -> Seq<char> {
    pad2(n / 100) + pad2(n % 100)
}

/// The basic iCalendar form `YYYYMMDDTHHMMSSZ` (chrono's `%Y%m%dT%H%M%SZ`).
pub open spec fn ical_datetime(f: UtcFields) -> Seq<char> {
    pad4(f.year as int) + pad2(f.month as int) + pad2(f.day as int) + seq!['T'] + pad2(
        f.hour as int,
    ) + pad2(f.minute as int) + pad2(f.second as int) + seq!['Z']
}

/// The form `DD.MM.YYYY HH:MM` (chrono's `%d.%m.%Y %H:%M`).
pub open spec fn creation_stamp(f: UtcFields) -> Seq<char> {
    pad2(f.day as int) + seq!['.'] + pad2(f.month as int) + seq!['.'] + pad4(f.year as int)
        + seq![' '] + pad2(f.hour as int) + seq![':'] + pad2(f.minute as int)
}

/// `c` is one of `0`..=`9`.
pub open spec fn is_digit(c: char) -> bool {
    48 <= (c as u32) <= 57
}

/// The value of the decimal digit `c`.
pub open spec fn digit_value(c: char) -> int {
    (c as u32) - 48
}

/// The two-digit number at `s[i..i + 2]`.
pub open spec fn num2(s: Seq<char>, i: int) -> int {
    10 * digit_value(s[i]) + digit_value(s[i + 1])
}

/// The text is `YYYYMMDDTHHMMSSZ` with digits where the form has them.
pub open spec fn ical_datetime_shape(s: Seq<char>) -> bool {
    &&& s.len() == 16
    &&& s[8] == 'T'
    &&& s[15] == 'Z'
    &&& forall|i: int| 0 <= i < 15 && i != 8 ==> is_digit(#[trigger] s[i])
}

/// The fields that the text `s` gives in the form `YYYYMMDDTHHMMSSZ`, if it has that form.
pub open spec fn parse_ical_datetime_spec(s: Seq<char>) -> Option<UtcFields> {
    if ical_datetime_shape(s) {
        Some(
            UtcFields {
                year: (100 * num2(s, 0) + num2(s, 2)) as i32,
                month: num2(s, 4) as u32,
                day: num2(s, 6) as u32,
                hour: num2(s, 9) as u32,
                minute: num2(s, 11) as u32,
                second: num2(s, 13) as u32,
            },
        )
    } else {
        None
    }
}

/// The digit for `n`.
pub fn digit_char(n: u32) -> (r: char)
    requires
        n < 10,
    ensures
        r == digit(n as int),
        is_digit(r),
        digit_value(r) == n,
{
    match n {
        0 => '0',
        1 => '1',
        2 => '2',
        3 => '3',
        4 => '4',
        5 => '5',
        6 => '6',
        7 => '7',
        8 => '8',
        _ => '9',
    }
}

/// Appends `n` as two digits.
pub fn push_pad2(out: &mut Vec<char>, n: u32)
    requires
        n < 100,
    ensures
        final(out)@ == old(out)@ + pad2(n as int),
{
    out.push(digit_char(n / 10));
    out.push(digit_char(n % 10));
    assert(out@ =~= old(out)@ + pad2(n as int));
}

/// Appends `n` as four digits.
pub fn push_pad4(out: &mut Vec<char>, n: u32)
    requires
        n < 10000,
    ensures
        final(out)@ == old(out)@ + pad4(n as int),
{
    push_pad2(out, n / 100);
    push_pad2(out, n % 100);
    assert(out@ =~= old(out)@ + pad4(n as int));
}

/// Appends `f` in the form `YYYYMMDDTHHMMSSZ`.
pub fn push_ical_datetime(out: &mut Vec<char>, f: &UtcFields)
    requires
        f.valid(),
    ensures
        final(out)@ == old(out)@ + ical_datetime(*f),
{
    push_pad4(out, f.year as u32);
    push_pad2(out, f.month);
    push_pad2(out, f.day);
    out.push('T');
    push_pad2(out, f.hour);
    push_pad2(out, f.minute);
    push_pad2(out, f.second);
    out.push('Z');
    assert(out@ =~= old(out)@ + ical_datetime(*f));
}

/// Appends `f` in the form `DD.MM.YYYY HH:MM`.
pub fn push_creation_stamp(out: &mut Vec<char>, f: &UtcFields)
    requires
        f.valid(),
    ensures
        final(out)@ == old(out)@ + creation_stamp(*f),
{
    push_pad2(out, f.day);
    out.push('.');
    push_pad2(out, f.month);
    out.push('.');
    push_pad4(out, f.year as u32);
    out.push(' ');
    push_pad2(out, f.hour);
    out.push(':');
    push_pad2(out, f.minute);
    assert(out@ =~= old(out)@ + creation_stamp(*f));
}

/// `t` in the form `YYYYMMDDTHHMMSSZ`.
pub fn format_ical_datetime(t: &Timestamp) -> (r: String)
    ensures
        r@ == ical_datetime(t.spec_fields()),
{
    let f = t.fields();
    let mut out: Vec<char> = Vec::new();
    push_ical_datetime(&mut out, &f);
    crate::text::string_of(&out)
}

/// The value of a digit known to be one.
fn digit_value_exec(c: char) -> (r: u32)
    requires
        is_digit(c),
    ensures
        r == digit_value(c),
        r < 10,
{
    (c as u32) - 48
}

/// The two-digit number at `s[i..i + 2]`.
fn num2_exec(s: &Vec<char>, i: usize) -> (r: u32)
    requires
        i < 15,
        s@.len() == 16,
        is_digit(s@[i as int]),
        is_digit(s@[i + 1]),
    ensures
        r == num2(s@, i as int),
        r < 100,
{
    10 * digit_value_exec(s[i]) + digit_value_exec(s[i + 1])
}

/// Reads text in the form `YYYYMMDDTHHMMSSZ`; `None` where it has another form.
pub fn parse_ical_datetime(text: &str) -> (r: Option<UtcFields>)
    ensures
        r == parse_ical_datetime_spec(text@),
{
    let s = chars_of(text);
    if s.len() != 16 || s[8] != 'T' || s[15] != 'Z' {
        return None;
    }
    let mut i: usize = 0;
    while i < 15
        invariant
            s@ == text@,
            s@.len() == 16,
            i <= 15,
            forall|k: int| 0 <= k < i && k != 8 ==> is_digit(#[trigger] s@[k]),
        decreases 15 - i,
    {
        if i != 8 {
            let v = s[i] as u32;
            if v < 48 || v > 57 {
                return None;
            }
        }
        i = i + 1;
    }
    let year = 100 * num2_exec(&s, 0) + num2_exec(&s, 2);
    Some(
        UtcFields {
            year: year as i32,
            month: num2_exec(&s, 4),
            day: num2_exec(&s, 6),
            hour: num2_exec(&s, 9),
            minute: num2_exec(&s, 11),
            second: num2_exec(&s, 13),
        },
    )
}

proof fn lemma_pad2_reads_back(n: int)
    requires
        0 <= n < 100,
    ensures
        is_digit(pad2(n)[0]),
        is_digit(pad2(n)[1]),
        num2(pad2(n), 0) == n,
{
}

/// Writing the calendar fields of an instant in the form `YYYYMMDDTHHMMSSZ`
/// and reading that text back gives the same fields: the instant is kept to
/// the second.
/// Every `Timestamp` has such fields (see `Timestamp::fields`).
pub proof fn lemma_ical_datetime_round_trip(f: UtcFields)
    requires
        f.valid(),
    ensures
        parse_ical_datetime_spec(ical_datetime(f)) == Some(f),
{
    let s = ical_datetime(f);
    let y = f.year as int;
    lemma_pad2_reads_back(y / 100);
    lemma_pad2_reads_back(y % 100);
    lemma_pad2_reads_back(f.month as int);
    lemma_pad2_reads_back(f.day as int);
    lemma_pad2_reads_back(f.hour as int);
    lemma_pad2_reads_back(f.minute as int);
    lemma_pad2_reads_back(f.second as int);
    assert(s.subrange(0, 2) =~= pad2(y / 100));
    assert(s.subrange(2, 4) =~= pad2(y % 100));
    assert(s.subrange(4, 6) =~= pad2(f.month as int));
    assert(s.subrange(6, 8) =~= pad2(f.day as int));
    assert(s.subrange(9, 11) =~= pad2(f.hour as int));
    assert(s.subrange(11, 13) =~= pad2(f.minute as int));
    assert(s.subrange(13, 15) =~= pad2(f.second as int));
    assert(ical_datetime_shape(s));
    assert(100 * (y / 100) + y % 100 == y);
}

} // verus!
