//! Character-level helpers: UTF-8 widths, whitespace trimming and searching,
//! all on `Vec<char>` with contracts over `Seq<char>`.
use vstd::prelude::*;
use vstd::string::*;

verus! {

/// Number of octets in the UTF-8 encoding of `c`.
pub open spec fn utf8_width(c: char) -> nat {
    let v = c as u32;
    if v <= 0x7f {
        1
    } else if v <= 0x7ff {
        2
    } else if v <= 0xffff {
        3
    } else {
        4
    }
}

/// Number of octets in the UTF-8 encoding of `s`.
pub open spec fn utf8_len(s: Seq<char>) -> nat
    decreases s.len(),
{
    if s.len() == 0 {
        0
    } else {
        utf8_width(s[0]) + utf8_len(s.drop_first())
    }
}

/// `char::is_whitespace`: the characters with the Unicode `White_Space` property.
pub open spec fn is_space(c: char) -> bool {
    let v = c as u32;
    (0x09 <= v <= 0x0d) || v == 0x20 || v == 0x85 || v == 0xa0 || v == 0x1680 || (0x2000 <= v
        <= 0x200a) || v == 0x2028 || v == 0x2029 || v == 0x202f || v == 0x205f || v == 0x3000
}

/// `s` without its leading whitespace.
pub open spec fn trim_start(s: Seq<char>) -> Seq<char>
    decreases s.len(),
{
    if s.len() > 0 && is_space(s[0]) {
        trim_start(s.drop_first())
    } else {
        s
    }
}

/// `s` without its trailing whitespace.
pub open spec fn trim_end(s: Seq<char>) -> Seq<char>
    decreases s.len(),
{
    if s.len() > 0 && is_space(s.last()) {
        trim_end(s.drop_last())
    } else {
        s
    }
}

/// `s` without surrounding whitespace, as `str::trim` gives it.
pub open spec fn trim(s: Seq<char>) -> Seq<char> {
    trim_end(trim_start(s))
}

/// Index of the first occurrence of `c` in `s`.
pub open spec fn find_char(s: Seq<char>, c: char) -> Option<int>
    decreases s.len(),
{
    if s.len() == 0 {
        None
    } else if s[0] == c {
        Some(0)
    } else {
        match find_char(s.drop_first(), c) {
            Some(k) => Some(k + 1),
            None => None,
        }
    }
}

/// Index of the first whitespace character in `s`.
pub open spec fn find_space(s: Seq<char>) -> Option<int>
    decreases s.len(),
{
    if s.len() == 0 {
        None
    } else if is_space(s[0]) {
        Some(0)
    } else {
        match find_space(s.drop_first()) {
            Some(k) => Some(k + 1),
            None => None,
        }
    }
}

/// `pat` occurs in `s` starting at index `i`.
pub open spec fn occurs_at(s: Seq<char>, pat: Seq<char>, i: int) -> bool {
    0 <= i && i + pat.len() <= s.len() && s.subrange(i, i + pat.len()) == pat
}

/// `pat` occurs somewhere in `s`.
pub open spec fn contains(s: Seq<char>, pat: Seq<char>) -> bool {
    exists|i: int| occurs_at(s, pat, i)
}

/// `s` ends with `suffix`.
pub open spec fn ends_with(s: Seq<char>, suffix: Seq<char>) -> bool {
    occurs_at(s, suffix, s.len() - suffix.len())
}

/// Index of the last occurrence of `pat` in `s`.
pub open spec fn rfind(s: Seq<char>, pat: Seq<char>) -> Option<int>
    decreases s.len(),
{
    if s.len() < pat.len() {
        None
    } else if occurs_at(s, pat, s.len() - pat.len()) {
        Some(s.len() - pat.len())
    } else if s.len() == 0 {
        None
    } else {
        rfind(s.drop_last(), pat)
    }
}

/// Octets that `c` takes in UTF-8.
pub fn char_width(c: char) -> (r: usize)
    ensures
        r == utf8_width(c),
        1 <= r <= 4,
{
    let v = c as u32;
    if v <= 0x7f {
        1
    } else if v <= 0x7ff {
        2
    } else if v <= 0xffff {
        3
    } else {
        4
    }
}

/// Whether `c` is whitespace.
pub fn is_space_char(c: char) -> (r: bool)
    ensures
        r == is_space(c),
{
    let v = c as u32;
    (0x09 <= v && v <= 0x0d) || v == 0x20 || v == 0x85 || v == 0xa0 || v == 0x1680 || (0x2000
        <= v && v <= 0x200a) || v == 0x2028 || v == 0x2029 || v == 0x202f || v == 0x205f || v
        == 0x3000
}

/// The characters of `s`.
pub fn chars_of(s: &str) -> (r: Vec<char>)
    ensures
        r@ == s@,
{
    let n = s.unicode_len();
    let mut r: Vec<char> = Vec::new();
    let mut i: usize = 0;
    while i < n
        invariant
            n == s@.len(),
            i <= n,
            r@ == s@.subrange(0, i as int),
        decreases n - i,
    {
        r.push(s.get_char(i));
        i = i + 1;
    }
    assert(r@ =~= s@);
    r
}

/// Appends the characters of `s` to `out`.
pub fn push_str(out: &mut Vec<char>, s: &str)
    ensures
        final(out)@ == old(out)@ + s@,
{
    let n = s.unicode_len();
    let mut i: usize = 0;
    while i < n
        invariant
            n == s@.len(),
            i <= n,
            out@ == old(out)@ + s@.subrange(0, i as int),
        decreases n - i,
    {
        out.push(s.get_char(i));
        i = i + 1;
        assert(out@ =~= old(out)@ + s@.subrange(0, i as int));
    }
    assert(s@.subrange(0, n as int) =~= s@);
}

/// Appends `src[lo..hi]` to `out`.
pub fn push_range(out: &mut Vec<char>, src: &Vec<char>, lo: usize, hi: usize)
    requires
        lo <= hi <= src@.len(),
    ensures
        final(out)@ == old(out)@ + src@.subrange(lo as int, hi as int),
{
    let mut i: usize = lo;
    while i < hi
        invariant
            lo <= i <= hi <= src@.len(),
            out@ == old(out)@ + src@.subrange(lo as int, i as int),
        decreases hi - i,
    {
        out.push(src[i]);
        i = i + 1;
        assert(out@ =~= old(out)@ + src@.subrange(lo as int, i as int));
    }
}

/// Relies on `String`'s `FromIterator<&char>`: the string holds the characters in order.
#[verifier::external_body]
pub(crate) fn string_of(v: &Vec<char>) -> (r: String)
    ensures
        r@ == v@,
{
    v.iter().collect()
}

/// `src[lo..hi]` without surrounding whitespace.
pub fn trimmed_range(src: &Vec<char>, lo: usize, hi: usize) -> (r: Vec<char>)
    requires
        lo <= hi <= src@.len(),
    ensures
        r@ == trim(src@.subrange(lo as int, hi as int)),
{
    let ghost s = src@;
    let mut i: usize = lo;
    while i < hi && is_space_char(src[i])
        invariant
            lo <= i <= hi <= s.len(),
            s == src@,
            trim_start(s.subrange(lo as int, hi as int)) == trim_start(s.subrange(i as int, hi as int)),
        decreases hi - i,
    {
        assert(s.subrange(i as int, hi as int).drop_first() =~= s.subrange(i + 1, hi as int));
        i = i + 1;
    }
    let mut j: usize = hi;
    while j > i && is_space_char(src[j - 1])
        invariant
            i <= j <= hi <= s.len(),
            s == src@,
            trim_end(s.subrange(i as int, hi as int)) == trim_end(s.subrange(i as int, j as int)),
        decreases j - i,
    {
        assert(s.subrange(i as int, j as int).drop_last() =~= s.subrange(i as int, j - 1));
        j = j - 1;
    }
    proof {
        let t = s.subrange(i as int, hi as int);
        assert(trim_start(t) == t);
        let u = s.subrange(i as int, j as int);
        assert(trim_end(u) == u);
    }
    let mut r: Vec<char> = Vec::new();
    push_range(&mut r, src, i, j);
    assert(r@ =~= s.subrange(i as int, j as int));
    r
}

/// Index of the first `c` in `src[from..]`, counted from the start of `src`.
pub fn find_char_from(src: &Vec<char>, c: char, from: usize) -> (r: Option<usize>)
    requires
        from <= src@.len(),
    ensures
        match r {
            Some(k) => find_char(src@.subrange(from as int, src@.len() as int), c) == Some(k - from)
                && from <= k < src@.len() && src@[k as int] == c,
            None => find_char(src@.subrange(from as int, src@.len() as int), c) is None,
        },
{
    let ghost s = src@;
    let n = src.len();
    let mut i: usize = from;
    while i < n
        invariant
            from <= i <= n == s.len(),
            s == src@,
            find_char(s.subrange(from as int, n as int), c) == (match find_char(
                s.subrange(i as int, n as int),
                c,
            ) {
                Some(k) => Some(k + (i - from)),
                None => None,
            }),
        decreases n - i,
    {
        if src[i] == c {
            return Some(i);
        }
        assert(s.subrange(i as int, n as int).drop_first() =~= s.subrange(i + 1, n as int));
        i = i + 1;
    }
    None
}

/// Index of the first whitespace character in `src[from..]`, counted from
/// the start of `src`.
pub fn find_space_from(src: &Vec<char>, from: usize) -> (r: Option<usize>)
    requires
        from <= src@.len(),
    ensures
        match r {
            Some(k) => find_space(src@.subrange(from as int, src@.len() as int)) == Some(k - from)
                && from <= k < src@.len(),
            None => find_space(src@.subrange(from as int, src@.len() as int)) is None,
        },
{
    let ghost s = src@;
    let n = src.len();
    let mut i: usize = from;
    while i < n
        invariant
            from <= i <= n == s.len(),
            s == src@,
            find_space(s.subrange(from as int, n as int)) == (match find_space(
                s.subrange(i as int, n as int),
            ) {
                Some(k) => Some(k + (i - from)),
                None => None,
            }),
        decreases n - i,
    {
        if is_space_char(src[i]) {
            return Some(i);
        }
        assert(s.subrange(i as int, n as int).drop_first() =~= s.subrange(i + 1, n as int));
        i = i + 1;
    }
    None
}

/// Whether `pat` occurs in `src` at index `i`.
pub fn occurs_at_exec(src: &Vec<char>, pat: &Vec<char>, i: usize) -> (r: bool)
    ensures
        r == occurs_at(src@, pat@, i as int),
{
    if i > src.len() || pat.len() > src.len() - i {
        return false;
    }
    let mut k: usize = 0;
    while k < pat.len()
        invariant
            i + pat@.len() <= src@.len() <= usize::MAX,
            k <= pat@.len(),
            forall|m: int| 0 <= m < k ==> src@[i + m] == pat@[m],
        decreases pat@.len() - k,
    {
        if src[i + k] != pat[k] {
            assert(src@.subrange(i as int, i + pat@.len())[k as int] != pat@[k as int]);
            return false;
        }
        k = k + 1;
    }
    assert(src@.subrange(i as int, i + pat@.len()) =~= pat@);
    true
}

/// Whether `pat` occurs in `src`.
pub fn contains_exec(src: &Vec<char>, pat: &Vec<char>) -> (r: bool)
    ensures
        r == contains(src@, pat@),
{
    if pat.len() > src.len() {
        return false;
    }
    let last = src.len() - pat.len();
    let mut i: usize = 0;
    loop
        invariant
            i <= last,
            last + pat@.len() == src@.len(),
            forall|m: int| 0 <= m < i ==> !occurs_at(src@, pat@, m),
        decreases last - i,
    {
        if occurs_at_exec(src, pat, i) {
            return true;
        }
        if i == last {
            return false;
        }
        i = i + 1;
    }
}

/// Whether `src` ends with `suffix`.
pub fn ends_with_exec(src: &Vec<char>, suffix: &Vec<char>) -> (r: bool)
    ensures
        r == ends_with(src@, suffix@),
{
    if suffix.len() > src.len() {
        return false;
    }
    occurs_at_exec(src, suffix, src.len() - suffix.len())
}

/// Index of the last occurrence of `pat` in `src`.
pub fn rfind_exec(src: &Vec<char>, pat: &Vec<char>) -> (r: Option<usize>)
    ensures
        match r {
            Some(k) => rfind(src@, pat@) == Some(k as int) && occurs_at(src@, pat@, k as int),
            None => rfind(src@, pat@) is None,
        },
{
    let ghost s = src@;
    let mut n: usize = src.len();
    assert(s.subrange(0, n as int) =~= s);
    loop
        invariant
            n <= s.len(),
            s == src@,
            rfind(s, pat@) == rfind(s.subrange(0, n as int), pat@),
        decreases n,
    {
        let ghost t = s.subrange(0, n as int);
        if n < pat.len() {
            return None;
        }
        if occurs_at_exec(src, pat, n - pat.len()) {
            assert(t.subrange(n - pat@.len(), n as int) =~= s.subrange(n - pat@.len(), n as int));
            return Some(n - pat.len());
        }
        proof {
            if occurs_at(t, pat@, t.len() - pat@.len()) {
                assert(t.subrange(n - pat@.len(), n as int) =~= s.subrange(n - pat@.len(), n as int));
            }
        }
        if n == 0 {
            return None;
        }
        assert(t.drop_last() =~= s.subrange(0, n - 1));
        n = n - 1;
    }
}

} // verus!
