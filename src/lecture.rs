//! Normalisation of lecture records: lecturer lists, rooms, the online flag
//! and the kind of event.
use vstd::prelude::*;
use crate::internal;
use crate::text::{
    chars_of, contains, contains_exec, ends_with, ends_with_exec, find_char, find_char_from,
    find_space, find_space_from, is_space_char,
    occurs_at_exec, push_range, rfind, rfind_exec, string_of, trim, trim_end, trim_start,
    trimmed_range, is_space,
};
use crate::timestamp::Timestamp;

verus! {

/// The kind of a calendar entry.
#[derive(Clone, Copy, Debug, PartialEq, Eq, Structural)]
pub enum EventType {
    Lecture,
    Exam,
    Holiday,
}

/// The character views of a sequence of strings.
pub open spec fn views(v: Seq<String>) -> Seq<Seq<char>> {
    v.map_values(|x: String| x@)
}

/// The names in a lecturer text. Names are separated by commas, and each name
/// is a "Last, First" pair, so every second comma ends a name; a remainder
/// without a second comma is one name. Each name is trimmed.
pub open spec fn lecturer_names(s: Seq<char>) -> Seq<Seq<char>>
    decreases s.len(),
{
    if s.len() == 0 {
        seq![]
    } else {
        match find_char(s, ',') {
            None => seq![trim(s)],
            Some(i) => match find_char(s.skip(i + 1), ',') {
                None => seq![trim(s)],
                // The bounds always hold; stating them shows that the rest is shorter.
                Some(j) => if 0 <= i && 0 <= j && i + j + 2 <= s.len() {
                    seq![trim(s.take(i + 1 + j))] + lecturer_names(s.skip(i + j + 2))
                } else {
                    seq![]
                },
            },
        }
    }
}

/// The marker that separates a room from the lecture name: `" - Raum: "`.
pub open spec fn room_marker() -> Seq<char> {
    seq![' ', '-', ' ', 'R', 'a', 'u', 'm', ':', ' ']
}

/// The word that marks a room as online: `"online"`.
pub open spec fn online_word() -> Seq<char> {
    seq!['o', 'n', 'l', 'i', 'n', 'e']
}

/// What `str::to_lowercase` gives for `s`.
pub uninterp spec fn lower_of(s: Seq<char>) -> Seq<char>;

/// Some room mentions "online" in any letter case.
pub open spec fn some_room_online(rooms: Seq<Seq<char>>) -> bool {
    exists|k: int| 0 <= k < rooms.len() && contains(lower_of(#[trigger] rooms[k]), online_word())
}

/// The name, rooms and online flag of a lecture. Without rooms, a room that
/// follows the last room marker in the name is moved out of the name; with
/// rooms, the lecture is online when a room mentions it.
pub open spec fn normalized_rooms(name: Seq<char>, rooms: Seq<Seq<char>>) -> (
    Seq<char>,
    Seq<Seq<char>>,
    bool,
) {
    if rooms.len() == 0 {
        match rfind(name, room_marker()) {
            Some(i) => (name.take(i), seq![name.skip(i + room_marker().len())], false),
            None => (name, rooms, false),
        }
    } else {
        (name, rooms, some_room_online(rooms))
    }
}

/// The first whitespace-delimited word of `name`, as
/// `str::split_whitespace` gives it first: leading whitespace is skipped and
/// the word ends before the next whitespace character. Empty when `name` is
/// all whitespace.
pub open spec fn first_word(name: Seq<char>) -> Seq<char> {
    let t = trim_start(name);
    match find_space(t) {
        Some(i) => t.take(i),
        None => t,
    }
}

/// `"klausur"`
pub open spec fn exam_suffix() -> Seq<char> {
    seq!['k', 'l', 'a', 'u', 's', 'u', 'r']
}

/// `"prüfung"`
pub open spec fn exam_word() -> Seq<char> {
    seq!['p', 'r', 'ü', 'f', 'u', 'n', 'g']
}

/// `"prüfungswahl"`
pub open spec fn exam_choice_word() -> Seq<char> {
    seq!['p', 'r', 'ü', 'f', 'u', 'n', 'g', 's', 'w', 'a', 'h', 'l']
}

/// Ten hours in seconds.
pub open spec fn holiday_length() -> int {
    36000
}

/// The kind of an entry: an exam when the first word of its name ends with
/// "klausur" or is "prüfung" or "prüfungswahl"; otherwise a holiday when it
/// has no rooms and lasts exactly ten hours; otherwise a lecture.
pub open spec fn event_type_of(name: Seq<char>, no_rooms: bool, start: int, end: int) -> EventType {
    let w = first_word(name);
    if ends_with(w, exam_suffix()) || w == exam_word() || w == exam_choice_word() {
        EventType::Exam
    } else if no_rooms && end - start == holiday_length() {
        EventType::Holiday
    } else {
        EventType::Lecture
    }
}

/// A lecture as the calendar sees it.
pub struct LectureView {
    pub id: u32,
    pub date: Timestamp,
    pub start_time: Timestamp,
    pub end_time: Timestamp,
    pub name: Seq<char>,
    pub lecturers: Seq<Seq<char>>,
    pub rooms: Seq<Seq<char>>,
    pub online: bool,
    pub event_type: EventType,
}

/// The lecture that a raw record normalises to.
pub open spec fn normalized(base: internal::Lecture) -> LectureView {
    let (name, rooms, online) = normalized_rooms(base.name@, views(base.rooms@));
    LectureView {
        id: base.id,
        date: base.date,
        start_time: base.start_time,
        end_time: base.end_time,
        name,
        lecturers: lecturer_names(base.lecturer@),
        rooms,
        online,
        event_type: event_type_of(
            name,
            rooms.len() == 0,
            base.start_time.spec_secs(),
            base.end_time.spec_secs(),
        ),
    }
}

/// A normalised lecture.
pub struct Lecture {
    id: u32,
    date: Timestamp,
    start_time: Timestamp,
    end_time: Timestamp,
    name: String,
    lecturers: Vec<String>,
    rooms: Vec<String>,
    online: bool,
    event_type: EventType,
}

impl View for Lecture {
    type V = LectureView;

    closed spec fn view(&self) -> LectureView {
        LectureView {
            id: self.id,
            date: self.date,
            start_time: self.start_time,
            end_time: self.end_time,
            name: self.name@,
            lecturers: views(self.lecturers@),
            rooms: views(self.rooms@),
            online: self.online,
            event_type: self.event_type,
        }
    }
}

/// Splits a lecturer text into the names it holds.
pub fn split_lecturers(text: &str) -> (r: Vec<String>)
    ensures
        views(r@) == lecturer_names(text@),
        r@.len() == 0 <==> text@.len() == 0,
{
    let s = chars_of(text);
    let n = s.len();
    let mut names: Vec<String> = Vec::new();
    let mut p: usize = 0;
    assert(s@.subrange(0, n as int) =~= s@);
    assert(views(names@) =~= Seq::<Seq<char>>::empty());
    while p < n
        invariant
            s@ == text@,
            n == s@.len(),
            p <= n,
            views(names@) + lecturer_names(s@.subrange(p as int, n as int)) == lecturer_names(
                text@,
            ),
            p > 0 ==> names@.len() > 0,
        decreases n - p,
    {
        let ghost t = s@.subrange(p as int, n as int);
        let ghost before = names@;
        match find_char_from(&s, ',', p) {
            None => {
                names.push(string_of(&trimmed_range(&s, p, n)));
                assert(views(names@) =~= views(before) + lecturer_names(t));
                return names;
            },
            Some(i) => {
                assert(t.skip(i - p + 1) =~= s@.subrange(i + 1, n as int));
                match find_char_from(&s, ',', i + 1) {
                    None => {
                        names.push(string_of(&trimmed_range(&s, p, n)));
                        assert(views(names@) =~= views(before) + lecturer_names(t));
                        return names;
                    },
                    Some(j) => {
                        names.push(string_of(&trimmed_range(&s, p, j)));
                        assert(t.take(j - p) =~= s@.subrange(p as int, j as int));
                        assert(t.skip(j - p + 1) =~= s@.subrange(j + 1, n as int));
                        assert(views(names@) =~= views(before) + seq![
                            trim(s@.subrange(p as int, j as int)),
                        ]);
                        assert(views(names@) + lecturer_names(s@.subrange(j + 1, n as int))
                            =~= views(before) + lecturer_names(t));
                        p = j + 1;
                    },
                }
            },
        }
    }
    assert(s@.subrange(p as int, n as int).len() == 0);
    assert(views(names@) =~= views(names@) + lecturer_names(s@.subrange(p as int, n as int)));
    names
}

/// Relies on `str::to_lowercase`: the result depends on the text alone.
#[verifier::external_body]
fn lowercase(s: &str) -> (r: String)
    ensures
        r@ == lower_of(s@),
{
    s.to_lowercase()
}

/// Whether a lower-cased room name mentions "online".
pub fn mentions_online(lowered: &str) -> (r: bool)
    ensures
        r == contains(lowered@, online_word()),
{
    let s = chars_of(lowered);
    let word: Vec<char> = vec!['o', 'n', 'l', 'i', 'n', 'e'];
    assert(word@ =~= online_word());
    contains_exec(&s, &word)
}

/// Whether some room mentions "online" in any letter case.
pub fn any_room_online(rooms: &Vec<String>) -> (r: bool)
    ensures
        r == some_room_online(views(rooms@)),
{
    let mut k: usize = 0;
    while k < rooms.len()
        invariant
            k <= rooms@.len(),
            forall|m: int|
                0 <= m < k ==> !contains(lower_of(#[trigger] views(rooms@)[m]), online_word()),
        decreases rooms@.len() - k,
    {
        let lowered = lowercase(rooms[k].as_str());
        if mentions_online(lowered.as_str()) {
            assert(views(rooms@)[k as int] == rooms@[k as int]@);
            return true;
        }
        assert(views(rooms@)[k as int] == rooms@[k as int]@);
        k = k + 1;
    }
    false
}

/// The name, rooms and online flag of a lecture (see `normalized_rooms`).
pub fn normalize_rooms(name: String, rooms: Vec<String>) -> (r: (String, Vec<String>, bool))
    ensures
        (r.0@, views(r.1@), r.2) == normalized_rooms(name@, views(rooms@)),
{
    if rooms.len() == 0 {
        let s = chars_of(name.as_str());
        let n = s.len();
        let marker: Vec<char> = vec![' ', '-', ' ', 'R', 'a', 'u', 'm', ':', ' '];
        assert(marker@ =~= room_marker());
        match rfind_exec(&s, &marker) {
            Some(i) => {
                let mut head: Vec<char> = Vec::new();
                push_range(&mut head, &s, 0, i);
                let mut room: Vec<char> = Vec::new();
                push_range(&mut room, &s, i + marker.len(), s.len());
                let mut new_rooms: Vec<String> = Vec::new();
                new_rooms.push(string_of(&room));
                assert(head@ =~= s@.take(i as int));
                assert(room@ =~= s@.skip(i + room_marker().len()));
                assert(views(new_rooms@) =~= seq![room@]);
                (string_of(&head), new_rooms, false)
            },
            None => {
                assert(views(rooms@) =~= Seq::<Seq<char>>::empty());
                (name, rooms, false)
            },
        }
    } else {
        let online = any_room_online(&rooms);
        (name, rooms, online)
    }
}

/// The first whitespace-delimited word of `name` (see `first_word`).
pub fn first_word_of(name: &str) -> (r: Vec<char>)
    ensures
        r@ == first_word(name@),
{
    let s = chars_of(name);
    let n = s.len();
    let mut i: usize = 0;
    assert(s@.subrange(0, n as int) =~= s@);
    while i < n && is_space_char(s[i])
        invariant
            i <= n == s@.len(),
            s@ == name@,
            trim_start(name@) == trim_start(s@.subrange(i as int, n as int)),
        decreases n - i,
    {
        assert(s@.subrange(i as int, n as int).drop_first() =~= s@.subrange(i + 1, n as int));
        i = i + 1;
    }
    let ghost t = s@.subrange(i as int, n as int);
    assert(trim_start(t) == t);
    let end = match find_space_from(&s, i) {
        Some(k) => {
            assert(t.take(k - i) =~= s@.subrange(i as int, k as int));
            k
        },
        None => n,
    };
    let mut w: Vec<char> = Vec::new();
    push_range(&mut w, &s, i, end);
    assert(w@ =~= first_word(name@));
    w
}

/// Classifies an entry by its name, whether it has rooms, and its times.
pub fn classify(name: &str, no_rooms: bool, start_time: &Timestamp, end_time: &Timestamp) -> (r:
    EventType)
    ensures
        r == event_type_of(name@, no_rooms, start_time.spec_secs(), end_time.spec_secs()),
{
    let w = first_word_of(name);
    let suffix: Vec<char> = vec!['k', 'l', 'a', 'u', 's', 'u', 'r'];
    let word: Vec<char> = vec!['p', 'r', 'ü', 'f', 'u', 'n', 'g'];
    let choice: Vec<char> = vec!['p', 'r', 'ü', 'f', 'u', 'n', 'g', 's', 'w', 'a', 'h', 'l'];
    assert(suffix@ =~= exam_suffix());
    assert(word@ =~= exam_word());
    assert(choice@ =~= exam_choice_word());
    let exam = ends_with_exec(&w, &suffix) || (w.len() == word.len() && occurs_at_exec(
        &w,
        &word,
        0,
    )) || (w.len() == choice.len() && occurs_at_exec(&w, &choice, 0));
    proof {
        assert(w@.subrange(0, w@.len() as int) =~= w@);
    }
    if exam {
        EventType::Exam
    } else if no_rooms && (end_time.secs() as i128) - (start_time.secs() as i128) == 36000 {
        EventType::Holiday
    } else {
        EventType::Lecture
    }
}

proof fn lemma_find_char_after(x: Seq<char>, y: Seq<char>, c: char)
    requires
        forall|i: int| 0 <= i < x.len() ==> x[i] != c,
    ensures
        find_char(x + y, c) == (match find_char(y, c) {
            Some(k) => Some(k + x.len()),
            None => None,
        }),
    decreases x.len(),
{
    if x.len() == 0 {
        assert(x + y =~= y);
    } else {
        assert((x + y).drop_first() =~= x.drop_first() + y);
        lemma_find_char_after(x.drop_first(), y, c);
    }
}

/// `s` is a non-empty name without commas and without surrounding whitespace.
pub open spec fn plain_name(s: Seq<char>) -> bool {
    &&& s.len() > 0
    &&& forall|i: int| 0 <= i < s.len() ==> s[i] != ','
    &&& !is_space(s[0])
    &&& !is_space(s.last())
}

/// `", "`
pub open spec fn comma_space() -> Seq<char> {
    seq![',', ' ']
}

/// An empty lecturer text holds no names.
pub proof fn lemma_no_names_in_empty_text()
    ensures
        lecturer_names(Seq::<char>::empty()) == Seq::<Seq<char>>::empty(),
{
}

/// A non-empty lecturer text without a comma is one name: the whole text,
/// trimmed.
pub proof fn lemma_text_without_comma_is_one_name(s: Seq<char>)
    requires
        s.len() > 0,
        forall|i: int| 0 <= i < s.len() ==> s[i] != ',',
    ensures
        lecturer_names(s) == seq![trim(s)],
{
    lemma_find_char_after(s, Seq::<char>::empty(), ',');
    assert(s + Seq::<char>::empty() =~= s);
}

/// A text "A, B, C, D" of four plain parts holds the two names "A, B" and
/// "C, D".
pub proof fn lemma_two_names_in_four_parts(a: Seq<char>, b: Seq<char>, c: Seq<char>, d: Seq<char>)
    requires
        plain_name(a),
        plain_name(b),
        plain_name(c),
        plain_name(d),
    ensures
        lecturer_names(a + comma_space() + b + comma_space() + c + comma_space() + d) == seq![
            a + comma_space() + b,
            c + comma_space() + d,
        ],
{
    let cs = comma_space();
    let sp = seq![' '];
    let first = a + cs + b;
    let second = c + cs + d;
    let s = first + cs + second;
    assert(s =~= a + cs + b + cs + c + cs + d);
    // The first comma ends `a`.
    assert(s =~= a + (cs + b + cs + second));
    lemma_find_char_after(a, cs + b + cs + second, ',');
    let i = a.len() as int;
    // The second comma ends `b`.
    let after = s.skip(i + 1);
    assert(after =~= (sp + b) + (cs + second));
    lemma_find_char_after(sp + b, cs + second, ',');
    let j = b.len() + 1int;
    assert(s.take(i + 1 + j) =~= first);
    assert(trim_start(first) == first);
    assert(first.last() == b.last());
    assert(trim_end(first) == first);
    // What is left holds one comma.
    let rest = s.skip(i + j + 2);
    assert(rest =~= sp + second);
    assert(rest =~= (sp + c) + (cs + d));
    lemma_find_char_after(sp + c, cs + d, ',');
    let k = c.len() + 1int;
    assert(rest.skip(k + 1) =~= sp + d + Seq::<char>::empty());
    lemma_find_char_after(sp + d, Seq::<char>::empty(), ',');
    assert(rest.drop_first() =~= second);
    assert(trim_start(second) == second);
    assert(trim_start(rest) == second);
    assert(second.last() == d.last());
    assert(trim_end(second) == second);
    assert(lecturer_names(rest) == seq![second]);
}

impl Lecture {
    /// Normalises a raw record: splits the lecturers, moves a room out of the
    /// name, sets the online flag and classifies the entry.
    pub fn from(base: internal::Lecture) -> (r: Lecture)
        ensures
            r@ == normalized(base),
    {
        let ghost b = base;
        let lecturers = split_lecturers(base.lecturer.as_str());
        let (name, rooms, online) = normalize_rooms(base.name, base.rooms);
        let event_type = classify(name.as_str(), rooms.len() == 0, &base.start_time, &base.end_time);
        let r = Lecture {
            id: base.id,
            date: base.date,
            start_time: base.start_time,
            end_time: base.end_time,
            name,
            lecturers,
            rooms,
            online,
            event_type,
        };
        assert(r@ == normalized(b));
        r
    }

    pub fn id(&self) -> (r: u32)
        ensures
            r == self@.id,
    {
        self.id
    }

    pub fn date(&self) -> (r: &Timestamp)
        ensures
            *r == self@.date,
    {
        &self.date
    }

    pub fn start_time(&self) -> (r: &Timestamp)
        ensures
            *r == self@.start_time,
    {
        &self.start_time
    }

    pub fn end_time(&self) -> (r: &Timestamp)
        ensures
            *r == self@.end_time,
    {
        &self.end_time
    }

    pub fn name(&self) -> (r: &String)
        ensures
            r@ == self@.name,
    {
        &self.name
    }

    pub fn lecturers(&self) -> (r: &Vec<String>)
        ensures
            views(r@) == self@.lecturers,
    {
        &self.lecturers
    }

    pub fn rooms(&self) -> (r: &Vec<String>)
        ensures
            views(r@) == self@.rooms,
    {
        &self.rooms
    }

    pub fn online(&self) -> (r: bool)
        ensures
            r == self@.online,
    {
        self.online
    }

    pub fn event_type(&self) -> (r: &EventType)
        ensures
            *r == self@.event_type,
    {
        &self.event_type
    }
}

} // verus!
