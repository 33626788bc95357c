//! Line-oriented text primitives of the Markdown interchange: Unicode
//! whitespace, trimming, line splitting, fenced-code runs, and the small
//! splitting and joining operations the importer uses. Text is handled as
//! sequences of Unicode scalar values.
use crate::text::{lower_char, lower_seq, starts_with};
use vstd::prelude::*;

verus! {

/// A Unicode `White_Space` character (the set `char::is_whitespace` uses).
pub open spec fn is_space(c: char) -> bool {
    ||| ('\u{9}' <= c && c <= '\u{d}')
    ||| c == ' '
    ||| c == '\u{85}'
    ||| c == '\u{a0}'
    ||| c == '\u{1680}'
    ||| ('\u{2000}' <= c && c <= '\u{200a}')
    ||| c == '\u{2028}'
    ||| c == '\u{2029}'
    ||| c == '\u{202f}'
    ||| c == '\u{205f}'
    ||| c == '\u{3000}'
}

/// An ASCII decimal digit.
pub open spec fn is_digit(c: char) -> bool {
    '0' <= c && c <= '9'
}

/// Character classes that the importer trims or counts.
#[derive(Clone, Copy)]
pub enum CharClass {
    /// Unicode whitespace.
    Space,
    /// The backtick.
    Backtick,
    /// The tilde.
    Tilde,
    /// ASCII digits, `.` and whitespace: the numbering before a section title.
    Numbering,
    /// ASCII digits.
    Digit,
    /// The carriage return.
    Cr,
}

/// Whether a character belongs to a class.
pub open spec fn in_class(k: CharClass, c: char) -> bool {
    match k {
        CharClass::Space => is_space(c),
        CharClass::Backtick => c == '`',
        CharClass::Tilde => c == '~',
        CharClass::Numbering => is_digit(c) || c == '.' || is_space(c),
        CharClass::Digit => is_digit(c),
        CharClass::Cr => c == '\r',
    }
}

/// Checks `in_class`.
pub fn class_has(k: CharClass, c: char) -> (r: bool)
    ensures
        r == in_class(k, c),
{
    match k {
        CharClass::Space => space_char(c),
        CharClass::Backtick => c == '`',
        CharClass::Tilde => c == '~',
        CharClass::Numbering => ('0' <= c && c <= '9') || c == '.' || space_char(c),
        CharClass::Digit => '0' <= c && c <= '9',
        CharClass::Cr => c == '\r',
    }
}

/// Checks `is_space`.
pub fn space_char(c: char) -> (r: bool)
    ensures
        r == is_space(c),
{
    ('\u{9}' <= c && c <= '\u{d}') || c == ' ' || c == '\u{85}' || c == '\u{a0}' || c == '\u{1680}' || (
    '\u{2000}' <= c && c <= '\u{200a}') || c == '\u{2028}' || c == '\u{2029}' || c == '\u{202f}' || c
        == '\u{205f}' || c == '\u{3000}'
}

/// Number of leading characters of a class.
pub open spec fn lead_count(s: Seq<char>, k: CharClass) -> nat
    decreases s.len(),
{
    if s.len() > 0 && in_class(k, s[0]) {
        1 + lead_count(s.drop_first(), k)
    } else {
        0
    }
}

/// Number of trailing characters of a class.
pub open spec fn trail_count(s: Seq<char>, k: CharClass) -> nat
    decreases s.len(),
{
    if s.len() > 0 && in_class(k, s.last()) {
        1 + trail_count(s.drop_last(), k)
    } else {
        0
    }
}

/// Without the leading characters of a class.
pub open spec fn strip_start(s: Seq<char>, k: CharClass) -> Seq<char> {
    s.skip(lead_count(s, k) as int)
}

/// Without the trailing characters of a class.
pub open spec fn strip_end(s: Seq<char>, k: CharClass) -> Seq<char> {
    s.take(s.len() - trail_count(s, k))
}

/// Without the leading and trailing characters of a class.
pub open spec fn strip(s: Seq<char>, k: CharClass) -> Seq<char> {
    strip_end(strip_start(s, k), k)
}

/// Without leading and trailing whitespace (`str::trim`).
pub open spec fn trim(s: Seq<char>) -> Seq<char> {
    strip(s, CharClass::Space)
}

/// Whether the text is empty or only whitespace.
pub open spec fn is_blank(s: Seq<char>) -> bool {
    trim(s).len() == 0
}

proof fn lemma_lead_count(s: Seq<char>, k: CharClass, i: int)
    requires
        0 <= i <= s.len(),
        forall|j: int| 0 <= j < i ==> in_class(k, #[trigger] s[j]),
    ensures
        lead_count(s, k) == i + lead_count(s.skip(i), k),
        lead_count(s, k) <= s.len(),
    decreases i,
{
    lemma_lead_count_bound(s, k);
    if i == 0 {
        assert(s.skip(0) =~= s);
    } else {
        let t = s.drop_first();
        assert forall|j: int| 0 <= j < i - 1 implies in_class(k, #[trigger] t[j]) by {
            assert(t[j] == s[j + 1]);
        }
        lemma_lead_count(t, k, i - 1);
        assert(t.skip(i - 1) =~= s.skip(i));
    }
}

proof fn lemma_lead_count_bound(s: Seq<char>, k: CharClass)
    ensures
        lead_count(s, k) <= s.len(),
        forall|j: int| 0 <= j < lead_count(s, k) ==> in_class(k, #[trigger] s[j]),
        lead_count(s, k) < s.len() ==> !in_class(k, s[lead_count(s, k) as int]),
    decreases s.len(),
{
    if s.len() > 0 && in_class(k, s[0]) {
        let t = s.drop_first();
        lemma_lead_count_bound(t, k);
        assert forall|j: int| 0 <= j < lead_count(s, k) implies in_class(k, #[trigger] s[j]) by {
            if j > 0 {
                assert(s[j] == t[j - 1]);
            }
        }
        if lead_count(s, k) < s.len() {
            assert(s[lead_count(s, k) as int] == t[lead_count(t, k) as int]);
        }
    }
}

proof fn lemma_trail_count(s: Seq<char>, k: CharClass, i: int)
    requires
        0 <= i <= s.len(),
        forall|j: int| s.len() - i <= j < s.len() ==> in_class(k, #[trigger] s[j]),
    ensures
        trail_count(s, k) == i + trail_count(s.take(s.len() - i), k),
    decreases i,
{
    if i == 0 {
        assert(s.take(s.len() as int) =~= s);
    } else {
        let t = s.drop_last();
        assert forall|j: int| t.len() - (i - 1) <= j < t.len() implies in_class(k, #[trigger] t[j]) by {
            assert(t[j] == s[j]);
        }
        assert(in_class(k, s[s.len() - 1]));
        lemma_trail_count(t, k, i - 1);
        assert(t.take(t.len() - (i - 1)) =~= s.take(s.len() - i));
    }
}

proof fn lemma_trail_count_bound(s: Seq<char>, k: CharClass)
    ensures
        trail_count(s, k) <= s.len(),
        trail_count(s, k) < s.len() ==> !in_class(k, s[s.len() - 1 - trail_count(s, k)]),
    decreases s.len(),
{
    if s.len() > 0 && in_class(k, s.last()) {
        let t = s.drop_last();
        lemma_trail_count_bound(t, k);
        if trail_count(s, k) < s.len() {
            assert(s[s.len() - 1 - trail_count(s, k)] == t[t.len() - 1 - trail_count(t, k)]);
        }
    }
}

/// Counts the leading characters of a class from position `from`.
pub fn count_lead(s: &Vec<char>, from: usize, k: CharClass) -> (n: usize)
    requires
        from <= s@.len(),
    ensures
        n == lead_count(s@.skip(from as int), k),
        from + n <= s@.len(),
{
    let mut i: usize = from;
    while i < s.len() && class_has(k, s[i])
        invariant
            from <= i <= s@.len(),
            forall|j: int| 0 <= j < i - from ==> in_class(k, #[trigger] s@.skip(from as int)[j]),
        decreases s.len() - i,
    {
        i = i + 1;
    }
    let ghost t = s@.skip(from as int);
    proof {
        lemma_lead_count(t, k, i - from);
        assert(t.skip(i - from) =~= s@.skip(i as int));
        if i < s.len() {
            assert(s@.skip(i as int)[0] == s@[i as int]);
        }
    }
    i - from
}

/// Counts the trailing characters of a class before position `to`.
pub fn count_trail(s: &Vec<char>, to: usize, k: CharClass) -> (n: usize)
    requires
        to <= s@.len(),
    ensures
        n == trail_count(s@.take(to as int), k),
        n <= to,
{
    let mut i: usize = to;
    while i > 0 && class_has(k, s[i - 1])
        invariant
            i <= to <= s@.len(),
            forall|j: int| i <= j < to ==> in_class(k, #[trigger] s@[j]),
        decreases i,
    {
        i = i - 1;
    }
    let ghost t = s@.take(to as int);
    proof {
        assert forall|j: int| t.len() - (to - i) <= j < t.len() implies in_class(k, #[trigger] t[j]) by {
            assert(t[j] == s@[j]);
        }
        lemma_trail_count(t, k, to - i);
        assert(t.take(t.len() - (to - i)) =~= s@.take(i as int));
        if i > 0 {
            assert(s@.take(i as int).last() == s@[i - 1]);
        }
    }
    to - i
}

/// The characters in positions `from` (inclusive) to `to` (exclusive).
pub fn slice(s: &Vec<char>, from: usize, to: usize) -> (r: Vec<char>)
    requires
        from <= to <= s@.len(),
    ensures
        r@ == s@.subrange(from as int, to as int),
{
    let mut r: Vec<char> = Vec::new();
    let mut i: usize = from;
    while i < to
        invariant
            from <= i <= to <= s@.len(),
            r@ == s@.subrange(from as int, i as int),
        decreases to - i,
    {
        r.push(s[i]);
        i = i + 1;
        assert(r@ =~= s@.subrange(from as int, i as int));
    }
    r
}

/// A copy of a character vector.
pub fn copy_chars(s: &Vec<char>) -> (r: Vec<char>)
    ensures
        r@ == s@,
{
    let r = slice(s, 0, s.len());
    assert(s@.subrange(0, s@.len() as int) =~= s@);
    r
}

/// Stripping removes characters from the ends only.
pub proof fn lemma_strip_len(s: Seq<char>, k: CharClass)
    ensures
        strip(s, k).len() <= s.len(),
        lead_count(s, k) == 0 ==> strip(s, k) == s.take(strip(s, k).len() as int),
{
    lemma_lead_count_bound(s, k);
    let t = strip_start(s, k);
    lemma_trail_count_bound(t, k);
    if lead_count(s, k) == 0 {
        assert(t =~= s);
        assert(strip(s, k) =~= s.take(strip(s, k).len() as int));
    }
}

/// Strips the leading and trailing characters of a class.
pub fn strip_chars(s: &Vec<char>, k: CharClass) -> (r: Vec<char>)
    ensures
        r@ == strip(s@, k),
{
    let a = count_lead(s, 0, k);
    assert(s@.skip(0) =~= s@);
    let t = slice(s, a, s.len());
    assert(t@ =~= strip_start(s@, k));
    let b = count_trail(&t, t.len(), k);
    assert(t@.take(t@.len() as int) =~= t@);
    let r = slice(&t, 0, t.len() - b);
    assert(r@ =~= strip_end(t@, k));
    r
}

/// Strips the leading characters of a class.
pub fn strip_start_chars(s: &Vec<char>, k: CharClass) -> (r: Vec<char>)
    ensures
        r@ == strip_start(s@, k),
{
    let a = count_lead(s, 0, k);
    assert(s@.skip(0) =~= s@);
    let r = slice(s, a, s.len());
    assert(r@ =~= strip_start(s@, k));
    r
}

/// Trims whitespace on both ends.
pub fn trim_chars(s: &Vec<char>) -> (r: Vec<char>)
    ensures
        r@ == trim(s@),
{
    strip_chars(s, CharClass::Space)
}

/// Whether the text is empty or only whitespace.
pub fn blank(s: &Vec<char>) -> (r: bool)
    ensures
        r == is_blank(s@),
{
    trim_chars(s).len() == 0
}

/// Drops a final carriage return.
pub open spec fn drop_cr(l: Seq<char>) -> Seq<char> {
    if l.len() > 0 && l.last() == '\r' {
        l.drop_last()
    } else {
        l
    }
}

/// The finished lines and the line in progress after the first `n`
/// characters: a line ends at `\n`, and a `\r` just before it is dropped.
pub open spec fn line_scan(s: Seq<char>, n: int) -> (Seq<Seq<char>>, Seq<char>)
    decreases n,
{
    if n <= 0 {
        (Seq::empty(), Seq::empty())
    } else {
        let (done, cur) = line_scan(s, n - 1);
        if s[n - 1] == '\n' {
            (done.push(drop_cr(cur)), Seq::empty())
        } else {
            (done, cur.push(s[n - 1]))
        }
    }
}

/// The lines of a text (`str::lines`): split at `\n`, without a `\r`
/// before it; a last line without `\n` counts when it is not empty.
pub open spec fn lines_of(s: Seq<char>) -> Seq<Seq<char>> {
    let (done, cur) = line_scan(s, s.len() as int);
    if cur.len() > 0 {
        done.push(cur)
    } else {
        done
    }
}

/// The character vectors as sequences.
pub open spec fn views(v: Seq<Vec<char>>) -> Seq<Seq<char>> {
    Seq::new(v.len(), |i: int| v[i]@)
}

/// Splits a text into its lines (see `lines_of`).
pub fn split_lines(s: &Vec<char>) -> (r: Vec<Vec<char>>)
    ensures
        views(r@) == lines_of(s@),
{
    let mut done: Vec<Vec<char>> = Vec::new();
    let mut cur: Vec<char> = Vec::new();
    let mut i: usize = 0;
    while i < s.len()
        invariant
            i <= s@.len(),
            (views(done@), cur@) == line_scan(s@, i as int),
        decreases s.len() - i,
    {
        if s[i] == '\n' {
            let n = cur.len();
            let line = if n > 0 && cur[n - 1] == '\r' {
                slice(&cur, 0, n - 1)
            } else {
                copy_chars(&cur)
            };
            proof {
                if n > 0 && cur@[n - 1] == '\r' {
                    assert(line@ =~= cur@.drop_last());
                }
            }
            done.push(line);
            cur = Vec::new();
            assert(views(done@) =~= line_scan(s@, i + 1).0);
        } else {
            cur.push(s[i]);
        }
        i = i + 1;
    }
    if cur.len() > 0 {
        done.push(cur);
    }
    assert(views(done@) =~= lines_of(s@));
    done
}

/// Bytes in the UTF-8 encoding of a character.
pub open spec fn utf8_width(c: char) -> nat {
    if (c as u32) < 0x80 {
        1
    } else if (c as u32) < 0x800 {
        2
    } else if (c as u32) < 0x10000 {
        3
    } else {
        4
    }
}

/// Bytes in the UTF-8 encoding of a text.
pub open spec fn utf8_len(s: Seq<char>) -> nat
    decreases s.len(),
{
    if s.len() == 0 {
        0
    } else {
        utf8_len(s.drop_last()) + utf8_width(s.last())
    }
}

/// Whether the UTF-8 encoding of a text is longer than `max` bytes.
pub fn utf8_longer_than(s: &Vec<char>, max: usize) -> (r: bool)
    requires
        max < usize::MAX - 4,
    ensures
        r == (utf8_len(s@) > max),
{
    let mut acc: usize = 0;
    let mut i: usize = 0;
    while i < s.len()
        invariant
            i <= s@.len(),
            max < usize::MAX - 4,
            acc == utf8_len(s@.take(i as int)),
            acc <= max,
        decreases s.len() - i,
    {
        let c = s[i];
        let w: usize = if (c as u32) < 0x80 {
            1
        } else if (c as u32) < 0x800 {
            2
        } else if (c as u32) < 0x10000 {
            3
        } else {
            4
        };
        assert(s@.take(i + 1).drop_last() =~= s@.take(i as int));
        acc = acc + w;
        i = i + 1;
        if acc > max {
            proof {
                lemma_utf8_len_prefix(s@, i as int);
            }
            return true;
        }
    }
    assert(s@.take(s@.len() as int) =~= s@);
    false
}

proof fn lemma_utf8_len_monotone(s: Seq<char>, i: int, j: int)
    requires
        0 <= i <= j <= s.len(),
    ensures
        utf8_len(s.take(i)) <= utf8_len(s.take(j)),
{
    lemma_utf8_len_prefix(s.take(j), i);
    assert(s.take(j).take(i) =~= s.take(i));
}

/// Whether some prefix of a text takes exactly `at` bytes of UTF-8, so
/// that byte `at` falls on a character boundary.
pub fn utf8_boundary_at(s: &Vec<char>, at: usize) -> (r: bool)
    requires
        at < usize::MAX - 4,
    ensures
        r == exists|k: int| 0 <= k <= s@.len() && utf8_len(#[trigger] s@.take(k)) == at,
{
    let mut acc: usize = 0;
    let mut i: usize = 0;
    assert(s@.take(0) =~= Seq::<char>::empty());
    while i < s.len() && acc < at
        invariant
            i <= s@.len(),
            at < usize::MAX - 4,
            acc == utf8_len(s@.take(i as int)),
            acc <= at + 4,
            forall|k: int| 0 <= k < i ==> utf8_len(#[trigger] s@.take(k)) < at,
        decreases s.len() - i,
    {
        let c = s[i];
        let w: usize = if (c as u32) < 0x80 {
            1
        } else if (c as u32) < 0x800 {
            2
        } else if (c as u32) < 0x10000 {
            3
        } else {
            4
        };
        assert(s@.take(i + 1).drop_last() =~= s@.take(i as int));
        acc = acc + w;
        i = i + 1;
    }
    if acc == at {
        assert(utf8_len(s@.take(i as int)) == at);
        true
    } else {
        assert forall|k: int| 0 <= k <= s@.len() implies utf8_len(#[trigger] s@.take(k)) != at by {
            if k > i {
                lemma_utf8_len_monotone(s@, i as int, k);
            }
        }
        false
    }
}

proof fn lemma_utf8_len_prefix(s: Seq<char>, i: int)
    requires
        0 <= i <= s.len(),
    ensures
        utf8_len(s.take(i)) <= utf8_len(s),
    decreases s.len() - i,
{
    if i < s.len() {
        lemma_utf8_len_prefix(s, i + 1);
        assert(s.take(i + 1).drop_last() =~= s.take(i));
    } else {
        assert(s.take(i) =~= s);
    }
}

/// A run of three or more backticks or tildes after leading whitespace:
/// the marker, the run length and the rest of the line.
pub open spec fn fence_run(line: Seq<char>) -> Option<(char, nat, Seq<char>)> {
    let t = strip_start(line, CharClass::Space);
    if t.len() == 0 {
        None
    } else {
        let k = if t[0] == '`' {
            CharClass::Backtick
        } else {
            CharClass::Tilde
        };
        let n = lead_count(t, k);
        if (t[0] == '`' || t[0] == '~') && n >= 3 {
            Some((t[0], n, t.skip(n as int)))
        } else {
            None
        }
    }
}

/// The run of a fence line, as in `fence_run`.
pub struct FenceRun {
    pub marker: char,
    pub length: usize,
    pub rest: Vec<char>,
}

/// Recognizes a fence line (see `fence_run`).
pub fn fence_of(line: &Vec<char>) -> (r: Option<FenceRun>)
    ensures
        match r {
            Some(f) => fence_run(line@) == Some((f.marker, f.length as nat, f.rest@)),
            None => fence_run(line@) is None,
        },
{
    let t = strip_start_chars(line, CharClass::Space);
    if t.len() == 0 {
        return None;
    }
    let m = t[0];
    if m != '`' && m != '~' {
        return None;
    }
    let k = if m == '`' {
        CharClass::Backtick
    } else {
        CharClass::Tilde
    };
    let n = count_lead(&t, 0, k);
    assert(t@.skip(0) =~= t@);
    if n < 3 {
        return None;
    }
    let rest = slice(&t, n, t.len());
    assert(rest@ =~= t@.skip(n as int));
    Some(FenceRun { marker: m, length: n, rest })
}

/// The open fence after a line: a fence line opens one when none is open,
/// and closes the open one when it has the same marker, is at least as
/// long, and has nothing but whitespace after the run.
pub open spec fn fence_step(open: Option<(char, nat)>, line: Seq<char>) -> Option<(char, nat)> {
    match fence_run(line) {
        Some((m, n, rest)) => match open {
            Some((a, min)) => if m == a && n >= min && is_blank(rest) {
                None
            } else {
                open
            },
            None => Some((m, n)),
        },
        None => open,
    }
}

/// Advances the open fence over a fence line (see `fence_step`).
pub fn next_fence(open: Option<(char, usize)>, f: &FenceRun) -> (r: Option<(char, usize)>)
    ensures
        match r {
            Some((m, n)) => (match open {
                Some((a, min)) => if f.marker == a && f.length >= min && is_blank(f.rest@) {
                    None::<(char, nat)>
                } else {
                    Some((a, min as nat))
                },
                None => Some((f.marker, f.length as nat)),
            }) == Some((m, n as nat)),
            None => (match open {
                Some((a, min)) => f.marker == a && f.length >= min && is_blank(f.rest@),
                None => false,
            }),
        },
{
    match open {
        Some((a, min)) => {
            if f.marker == a && f.length >= min && blank(&f.rest) {
                None
            } else {
                Some((a, min))
            }
        },
        None => Some((f.marker, f.length)),
    }
}

/// The open fence as a specification value.
pub open spec fn fence_view(open: Option<(char, usize)>) -> Option<(char, nat)> {
    match open {
        Some((m, n)) => Some((m, n as nat)),
        None => None,
    }
}

/// Position of the first occurrence of a character, if any.
pub open spec fn find_char(s: Seq<char>, c: char) -> Option<nat>
    decreases s.len(),
{
    if s.len() == 0 {
        None
    } else {
        match find_char(s.drop_last(), c) {
            Some(i) => Some(i),
            None => if s.last() == c {
                Some((s.len() - 1) as nat)
            } else {
                None
            },
        }
    }
}

proof fn lemma_find_char(s: Seq<char>, c: char, i: int)
    requires
        0 <= i <= s.len(),
        forall|j: int| 0 <= j < i ==> s[j] != c,
        i == s.len() || s[i] == c,
    ensures
        find_char(s, c) == (if i == s.len() {
            None
        } else {
            Some(i as nat)
        }),
    decreases s.len(),
{
    if s.len() > 0 {
        if i == s.len() {
            lemma_find_char(s.drop_last(), c, i - 1);
        } else if i == s.len() - 1 {
            lemma_find_char(s.drop_last(), c, i);
        } else {
            lemma_find_char(s.drop_last(), c, i);
        }
    }
}

/// Finds the first occurrence of a character.
pub fn find_first(s: &Vec<char>, c: char) -> (r: Option<usize>)
    ensures
        match r {
            Some(i) => find_char(s@, c) == Some(i as nat) && i < s@.len(),
            None => find_char(s@, c) is None,
        },
{
    let mut i: usize = 0;
    while i < s.len()
        invariant
            i <= s@.len(),
            forall|j: int| 0 <= j < i ==> s@[j] != c,
        decreases s.len() - i,
    {
        if s[i] == c {
            proof {
                lemma_find_char(s@, c, i as int);
            }
            return Some(i);
        }
        i = i + 1;
    }
    proof {
        lemma_find_char(s@, c, i as int);
    }
    None
}

/// The parts of a text between the occurrences of a separator
/// (`str::split`): always one more part than separators.
pub open spec fn split_by(s: Seq<char>, c: char) -> Seq<Seq<char>>
    decreases s.len(),
{
    if s.len() == 0 {
        seq![Seq::empty()]
    } else {
        let parts = split_by(s.drop_last(), c);
        if s.last() == c {
            parts.push(Seq::empty())
        } else {
            parts.update(parts.len() - 1, parts.last().push(s.last()))
        }
    }
}

proof fn lemma_split_by_nonempty(s: Seq<char>, c: char)
    ensures
        split_by(s, c).len() >= 1,
    decreases s.len(),
{
    if s.len() > 0 {
        lemma_split_by_nonempty(s.drop_last(), c);
    }
}

/// Splits a text at each occurrence of a separator (see `split_by`).
pub fn split_chars(s: &Vec<char>, c: char) -> (r: Vec<Vec<char>>)
    ensures
        views(r@) == split_by(s@, c),
        r@.len() >= 1,
{
    let mut parts: Vec<Vec<char>> = Vec::new();
    let mut cur: Vec<char> = Vec::new();
    let mut i: usize = 0;
    assert(s@.take(0) =~= Seq::<char>::empty());
    while i < s.len()
        invariant
            i <= s@.len(),
            views(parts@).push(cur@) == split_by(s@.take(i as int), c),
        decreases s.len() - i,
    {
        let ghost before = s@.take(i as int);
        proof {
            lemma_split_by_nonempty(before, c);
            assert(s@.take(i + 1).drop_last() =~= before);
        }
        if s[i] == c {
            parts.push(cur);
            cur = Vec::new();
            assert(views(parts@).push(cur@) =~= split_by(before, c).push(Seq::empty()));
        } else {
            cur.push(s[i]);
            assert(views(parts@).push(cur@) =~= split_by(before, c).update(
                split_by(before, c).len() - 1,
                split_by(before, c).last().push(s@[i as int]),
            ));
        }
        i = i + 1;
    }
    assert(s@.take(s@.len() as int) =~= s@);
    parts.push(cur);
    assert(views(parts@) =~= split_by(s@, c));
    parts
}

/// Lines joined by a separator character.
pub open spec fn join(parts: Seq<Seq<char>>, sep: char) -> Seq<char>
    decreases parts.len(),
{
    if parts.len() == 0 {
        Seq::empty()
    } else if parts.len() == 1 {
        parts[0]
    } else {
        join(parts.drop_last(), sep).push(sep) + parts.last()
    }
}

/// Joins lines with a separator (see `join`).
pub fn join_chars(parts: &Vec<Vec<char>>, sep: char) -> (r: Vec<char>)
    ensures
        r@ == join(views(parts@), sep),
{
    let mut out: Vec<char> = Vec::new();
    let mut i: usize = 0;
    while i < parts.len()
        invariant
            i <= parts@.len(),
            out@ == join(views(parts@).take(i as int), sep),
        decreases parts.len() - i,
    {
        let ghost before = out@;
        if i > 0 {
            out.push(sep);
        }
        let mut j: usize = 0;
        let ghost mid = out@;
        while j < parts[i].len()
            invariant
                i < parts@.len(),
                j <= parts@[i as int]@.len(),
                out@ == mid + parts@[i as int]@.take(j as int),
            decreases parts@[i as int]@.len() - j,
        {
            out.push(parts[i][j]);
            j = j + 1;
            assert(out@ =~= mid + parts@[i as int]@.take(j as int));
        }
        proof {
            let v = views(parts@).take(i + 1);
            assert(v.drop_last() =~= views(parts@).take(i as int));
            assert(parts@[i as int]@.take(j as int) =~= parts@[i as int]@);
            if i == 0 {
                assert(out@ =~= join(v, sep));
            } else {
                assert(out@ =~= join(v, sep));
            }
        }
        i = i + 1;
    }
    assert(views(parts@).take(parts@.len() as int) =~= views(parts@));
    out
}

/// The whitespace-separated words of a text and the word in progress
/// after the first `n` characters.
pub open spec fn word_scan(s: Seq<char>, n: int) -> (Seq<Seq<char>>, Seq<char>)
    decreases n,
{
    if n <= 0 {
        (Seq::empty(), Seq::empty())
    } else {
        let (done, cur) = word_scan(s, n - 1);
        if is_space(s[n - 1]) {
            if cur.len() > 0 {
                (done.push(cur), Seq::empty())
            } else {
                (done, cur)
            }
        } else {
            (done, cur.push(s[n - 1]))
        }
    }
}

/// The whitespace-separated words of a text (`str::split_whitespace`).
pub open spec fn words(s: Seq<char>) -> Seq<Seq<char>> {
    let (done, cur) = word_scan(s, s.len() as int);
    if cur.len() > 0 {
        done.push(cur)
    } else {
        done
    }
}

/// A heading normalized for identity: its words joined by single spaces,
/// ASCII-lowercased.
pub open spec fn normalize_heading(s: Seq<char>) -> Seq<char> {
    lower_seq(join(words(s), ' '))
}

/// Normalizes a heading (see `normalize_heading`).
pub fn normalize_heading_chars(s: &Vec<char>) -> (r: Vec<char>)
    ensures
        r@ == normalize_heading(s@),
{
    let mut done: Vec<Vec<char>> = Vec::new();
    let mut cur: Vec<char> = Vec::new();
    let mut i: usize = 0;
    while i < s.len()
        invariant
            i <= s@.len(),
            (views(done@), cur@) == word_scan(s@, i as int),
        decreases s.len() - i,
    {
        if space_char(s[i]) {
            if cur.len() > 0 {
                done.push(cur);
                cur = Vec::new();
                assert(views(done@) =~= word_scan(s@, i + 1).0);
            }
        } else {
            cur.push(s[i]);
        }
        i = i + 1;
    }
    if cur.len() > 0 {
        done.push(cur);
    }
    assert(views(done@) =~= words(s@));
    let joined = join_chars(&done, ' ');
    crate::text::lower_chars(&joined)
}

/// Whether a line begins with the characters of a literal.
pub fn begins_with(line: &Vec<char>, p: &str) -> (r: bool)
    ensures
        r == starts_with(line@, p@),
{
    let pc = crate::text::chars_of(p);
    crate::text::chars_start_with(line, &pc)
}

/// The rest of a line after a literal prefix, when it begins with it.
pub open spec fn after_prefix(line: Seq<char>, p: Seq<char>) -> Option<Seq<char>> {
    if starts_with(line, p) {
        Some(line.skip(p.len() as int))
    } else {
        None
    }
}

/// Removes a literal prefix (see `after_prefix`).
pub fn strip_prefix_chars(line: &Vec<char>, p: &str) -> (r: Option<Vec<char>>)
    ensures
        match r {
            Some(v) => after_prefix(line@, p@) == Some(v@),
            None => after_prefix(line@, p@) is None,
        },
{
    let pc = crate::text::chars_of(p);
    if crate::text::chars_start_with(line, &pc) {
        let v = slice(line, pc.len(), line.len());
        assert(v@ =~= line@.skip(p@.len() as int));
        Some(v)
    } else {
        None
    }
}

/// Position of the first occurrence of a text, if any.
pub open spec fn find_sub(s: Seq<char>, p: Seq<char>) -> Option<nat>
    decreases s.len(),
{
    if s.len() == 0 {
        if p.len() == 0 {
            Some(0)
        } else {
            None
        }
    } else {
        match find_sub(s.drop_last(), p) {
            Some(i) => Some(i),
            None => if p.len() <= s.len() && s.skip(s.len() - p.len()) == p {
                Some((s.len() - p.len()) as nat)
            } else {
                None
            },
        }
    }
}

proof fn lemma_find_sub(s: Seq<char>, p: Seq<char>, i: int)
    requires
        0 < p.len(),
        0 <= i <= s.len(),
        forall|j: int| 0 <= j < i && j + p.len() <= s.len() ==> #[trigger] s.subrange(j, j + p.len()) != p,
        i + p.len() <= s.len() ==> s.subrange(i, i + p.len()) == p,
        i + p.len() > s.len() ==> i == s.len(),
    ensures
        find_sub(s, p) == (if i + p.len() <= s.len() {
            Some(i as nat)
        } else {
            None
        }),
    decreases s.len(),
{
    if s.len() > 0 {
        let t = s.drop_last();
        if i + p.len() <= s.len() {
            if i + p.len() <= t.len() {
                assert(t.subrange(i, i + p.len()) =~= s.subrange(i, i + p.len()));
                assert forall|j: int| 0 <= j < i && j + p.len() <= t.len() implies #[trigger] t.subrange(j, j + p.len()) != p by {
                    assert(t.subrange(j, j + p.len()) =~= s.subrange(j, j + p.len()));
                }
                lemma_find_sub(t, p, i);
            } else {
                assert forall|j: int| 0 <= j < t.len() && j + p.len() <= t.len() implies #[trigger] t.subrange(j, j + p.len()) != p by {
                    assert(t.subrange(j, j + p.len()) =~= s.subrange(j, j + p.len()));
                }
                lemma_find_sub(t, p, t.len() as int);
                assert(s.skip(s.len() - p.len()) =~= s.subrange(i, i + p.len()));
            }
        } else {
            assert forall|j: int| 0 <= j < t.len() && j + p.len() <= t.len() implies #[trigger] t.subrange(j, j + p.len()) != p by {
                assert(t.subrange(j, j + p.len()) =~= s.subrange(j, j + p.len()));
            }
            lemma_find_sub(t, p, t.len() as int);
            if p.len() <= s.len() {
                let j = s.len() - p.len();
                assert(s.skip(j) =~= s.subrange(j, j + p.len()));
            }
        }
    }
}

/// Finds the first occurrence of a text (see `find_sub`).
pub fn find_text(s: &Vec<char>, p: &Vec<char>) -> (r: Option<usize>)
    requires
        p@.len() > 0,
    ensures
        match r {
            Some(i) => find_sub(s@, p@) == Some(i as nat) && i + p@.len() <= s@.len(),
            None => find_sub(s@, p@) is None,
        },
{
    let mut i: usize = 0;
    while i < s.len()
        invariant
            i <= s@.len(),
            p@.len() > 0,
            forall|j: int| 0 <= j < i && j + p@.len() <= s@.len() ==> #[trigger] s@.subrange(j, j + p@.len()) != p@,
        decreases s.len() - i,
    {
        if crate::text::occurs_at(s, p, i) {
            proof {
                lemma_find_sub(s@, p@, i as int);
            }
            return Some(i);
        }
        if p.len() > s.len() - i {
            proof {
                assert forall|j: int| 0 <= j < s@.len() && j + p@.len() <= s@.len() implies #[trigger] s@.subrange(j, j + p@.len()) != p@ by {}
                lemma_find_sub(s@, p@, s@.len() as int);
            }
            return None;
        }
        i = i + 1;
    }
    proof {
        lemma_find_sub(s@, p@, s@.len() as int);
    }
    None
}

/// The text with each `\r\n` replaced by `\n`.
pub open spec fn crlf_to_lf(s: Seq<char>) -> Seq<char>
    decreases s.len(),
{
    if s.len() == 0 {
        Seq::empty()
    } else if s.len() >= 2 && s[0] == '\r' && s[1] == '\n' {
        seq!['\n'] + crlf_to_lf(s.skip(2))
    } else {
        seq![s[0]] + crlf_to_lf(s.skip(1))
    }
}

/// Replaces each `\r\n` by `\n` (see `crlf_to_lf`).
pub fn crlf_chars(s: &Vec<char>) -> (r: Vec<char>)
    ensures
        r@ == crlf_to_lf(s@),
{
    let mut out: Vec<char> = Vec::new();
    let mut i: usize = 0;
    assert(s@.skip(0) =~= s@);
    while i < s.len()
        invariant
            i <= s@.len(),
            out@ + crlf_to_lf(s@.skip(i as int)) == crlf_to_lf(s@),
        decreases s.len() - i,
    {
        let ghost t = s@.skip(i as int);
        if i + 1 < s.len() && s[i] == '\r' && s[i + 1] == '\n' {
            assert(t.skip(2) =~= s@.skip(i + 2));
            out.push('\n');
            assert(out@ + crlf_to_lf(s@.skip(i + 2)) =~= crlf_to_lf(s@));
            i = i + 2;
        } else {
            assert(t.skip(1) =~= s@.skip(i + 1));
            out.push(s[i]);
            assert(out@ + crlf_to_lf(s@.skip(i + 1)) =~= crlf_to_lf(s@));
            i = i + 1;
        }
    }
    assert(s@.skip(i as int) =~= Seq::<char>::empty());
    assert(out@ + Seq::<char>::empty() =~= out@);
    out
}

/// ASCII lowercase of a character vector.
pub fn lower(s: &Vec<char>) -> (r: Vec<char>)
    ensures
        r@ == lower_seq(s@),
{
    crate::text::lower_chars(s)
}

/// Equality of character vectors.
pub fn same_chars(a: &Vec<char>, b: &Vec<char>) -> (r: bool)
    ensures
        r == (a@ == b@),
{
    if a.len() != b.len() {
        return false;
    }
    let mut i: usize = 0;
    while i < a.len()
        invariant
            i <= a@.len(),
            a@.len() == b@.len(),
            forall|j: int| 0 <= j < i ==> a@[j] == b@[j],
        decreases a.len() - i,
    {
        if a[i] != b[i] {
            return false;
        }
        i = i + 1;
    }
    assert(a@ =~= b@);
    true
}

/// ASCII lowercase of one character (see `lower_char`).
pub fn lower_one(c: char) -> (r: char)
    ensures
        r == lower_char(c),
{
    let v = vec![c];
    let l = crate::text::lower_chars(&v);
    l[0]
}

} // verus!
