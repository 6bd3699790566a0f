//! Line and token structure of source text.
//!
//! Both pipelines consume "logical lines": raw lines split on newlines,
//! with comments stripped, surrounding whitespace trimmed, and blank
//! results dropped. The stack-machine parser further splits a logical
//! line into whitespace-separated tokens. This module defines those
//! notions as sequence functions and provides verified executable
//! counterparts.

use vstd::prelude::*;
use vstd::string::*;

verus! {

// ---------------------------------------------------------------------------
// Character classes
// ---------------------------------------------------------------------------

/// Whitespace as trimmed from line ends (the Unicode white-space set).
pub open spec fn is_space(c: char) -> bool {
    let u = c as u32;
    u == 0x09 || u == 0x0A || u == 0x0B || u == 0x0C || u == 0x0D || u == 0x20 || u == 0x85
        || u == 0xA0 || u == 0x1680 || (0x2000 <= u && u <= 0x200A) || u == 0x2028 || u == 0x2029
        || u == 0x202F || u == 0x205F || u == 0x3000
}

/// Whitespace that separates tokens within a line (the ASCII white-space set).
pub open spec fn is_blank(c: char) -> bool {
    let u = c as u32;
    u == 0x20 || u == 0x09 || u == 0x0A || u == 0x0C || u == 0x0D
}

/// Executable test for [`is_space`].
pub fn space_char(c: char) -> (r: bool)
    ensures
        r == is_space(c),
{
    let u = c as u32;
    u == 0x09 || u == 0x0A || u == 0x0B || u == 0x0C || u == 0x0D || u == 0x20 || u == 0x85
        || u == 0xA0 || u == 0x1680 || (0x2000 <= u && u <= 0x200A) || u == 0x2028 || u == 0x2029
        || u == 0x202F || u == 0x205F || u == 0x3000
}

/// Executable test for [`is_blank`].
pub fn blank_char(c: char) -> (r: bool)
    ensures
        r == is_blank(c),
{
    let u = c as u32;
    u == 0x20 || u == 0x09 || u == 0x0A || u == 0x0C || u == 0x0D
}

// ---------------------------------------------------------------------------
// Splitting on a separator character
// ---------------------------------------------------------------------------

/// Splits `s` on occurrences of `sep`; `cur` is the partial segment read so
/// far. A separator ends the current segment, so `n` separators yield
/// `n + 1` segments (possibly empty ones).
pub open spec fn split_sep(s: Seq<char>, sep: char, cur: Seq<char>) -> Seq<Seq<char>>
    decreases s.len(),
{
    if s.len() == 0 {
        seq![cur]
    } else if s[0] == sep {
        seq![cur] + split_sep(s.drop_first(), sep, Seq::empty())
    } else {
        split_sep(s.drop_first(), sep, cur.push(s[0]))
    }
}

/// Splits `s` on [`is_blank`] characters, in the same manner.
pub open spec fn split_blank(s: Seq<char>, cur: Seq<char>) -> Seq<Seq<char>>
    decreases s.len(),
{
    if s.len() == 0 {
        seq![cur]
    } else if is_blank(s[0]) {
        seq![cur] + split_blank(s.drop_first(), Seq::empty())
    } else {
        split_blank(s.drop_first(), cur.push(s[0]))
    }
}

/// Unrolls [`split_sep`] up to the first separator position `j`
/// (`j == s.len()` when there is none).
pub proof fn lemma_split_sep_at(s: Seq<char>, sep: char, cur: Seq<char>, j: int)
    requires
        0 <= j <= s.len(),
        forall|k: int| 0 <= k < j ==> s[k] != sep,
        j < s.len() ==> s[j] == sep,
    ensures
        split_sep(s, sep, cur) == if j < s.len() {
            seq![cur + s.take(j)] + split_sep(s.skip(j + 1), sep, Seq::empty())
        } else {
            seq![cur + s]
        },
    decreases j,
{
    if j == 0 {
        if s.len() == 0 {
            assert(cur + s =~= cur);
            assert(seq![cur + s] =~~= seq![cur]);
        } else {
            assert(cur + s.take(0) =~= cur);
            assert(s.drop_first() =~= s.skip(1));
            assert(seq![cur + s.take(0)] + split_sep(s.skip(1), sep, Seq::empty()) =~~= seq![cur]
                + split_sep(s.drop_first(), sep, Seq::empty()));
        }
    } else {
        let s1 = s.drop_first();
        assert(forall|k: int| 0 <= k < j - 1 ==> s1[k] != sep);
        lemma_split_sep_at(s1, sep, cur.push(s[0]), j - 1);
        if j < s.len() {
            assert(cur.push(s[0]) + s1.take(j - 1) =~= cur + s.take(j));
            assert(s1.skip(j) =~= s.skip(j + 1));
            assert(seq![cur.push(s[0]) + s1.take(j - 1)] + split_sep(s1.skip(j), sep, Seq::empty())
                =~~= seq![cur + s.take(j)] + split_sep(s.skip(j + 1), sep, Seq::empty()));
        } else {
            assert(cur.push(s[0]) + s1 =~= cur + s);
            assert(seq![cur.push(s[0]) + s1] =~~= seq![cur + s]);
        }
    }
}

/// Unrolls [`split_blank`] up to the first blank position `j`
/// (`j == s.len()` when there is none).
pub proof fn lemma_split_blank_at(s: Seq<char>, cur: Seq<char>, j: int)
    requires
        0 <= j <= s.len(),
        forall|k: int| 0 <= k < j ==> !is_blank(s[k]),
        j < s.len() ==> is_blank(s[j]),
    ensures
        split_blank(s, cur) == if j < s.len() {
            seq![cur + s.take(j)] + split_blank(s.skip(j + 1), Seq::empty())
        } else {
            seq![cur + s]
        },
    decreases j,
{
    if j == 0 {
        if s.len() == 0 {
            assert(cur + s =~= cur);
            assert(seq![cur + s] =~~= seq![cur]);
        } else {
            assert(cur + s.take(0) =~= cur);
            assert(s.drop_first() =~= s.skip(1));
            assert(seq![cur + s.take(0)] + split_blank(s.skip(1), Seq::empty()) =~~= seq![cur]
                + split_blank(s.drop_first(), Seq::empty()));
        }
    } else {
        let s1 = s.drop_first();
        assert(forall|k: int| 0 <= k < j - 1 ==> !is_blank(s1[k]));
        lemma_split_blank_at(s1, cur.push(s[0]), j - 1);
        if j < s.len() {
            assert(cur.push(s[0]) + s1.take(j - 1) =~= cur + s.take(j));
            assert(s1.skip(j) =~= s.skip(j + 1));
            assert(seq![cur.push(s[0]) + s1.take(j - 1)] + split_blank(s1.skip(j), Seq::empty())
                =~~= seq![cur + s.take(j)] + split_blank(s.skip(j + 1), Seq::empty()));
        } else {
            assert(cur.push(s[0]) + s1 =~= cur + s);
            assert(seq![cur.push(s[0]) + s1] =~~= seq![cur + s]);
        }
    }
}

// ---------------------------------------------------------------------------
// Comment stripping and trimming
// ---------------------------------------------------------------------------

/// Index of the first two-character comment marker `//` in `l`, or `l.len()`
/// when there is none.
pub open spec fn comment_start(l: Seq<char>) -> int
    decreases l.len(),
{
    if l.len() < 2 {
        l.len() as int
    } else if l[0] == '/' && l[1] == '/' {
        0
    } else {
        1 + comment_start(l.drop_first())
    }
}

pub proof fn lemma_comment_start_bounds(l: Seq<char>)
    ensures
        0 <= comment_start(l) <= l.len(),
    decreases l.len(),
{
    if l.len() >= 2 && !(l[0] == '/' && l[1] == '/') {
        lemma_comment_start_bounds(l.drop_first());
    }
}

/// [`comment_start`] is the position of the first marker when one exists.
pub proof fn lemma_comment_start_found(l: Seq<char>, j: int)
    requires
        0 <= j,
        j + 2 <= l.len(),
        forall|k: int| 0 <= k < j ==> !((#[trigger] l[k]) == '/' && l[k + 1] == '/'),
        l[j] == '/' && l[j + 1] == '/',
    ensures
        comment_start(l) == j,
    decreases j,
{
    if j == 0 {
    } else {
        let l1 = l.drop_first();
        assert(forall|k: int| 0 <= k < j - 1 ==> !((#[trigger] l1[k]) == '/' && l1[k + 1] == '/')) by {
            assert(forall|k: int| 0 <= k < j - 1 ==> (#[trigger] l1[k]) == l[k + 1] && l1[k + 1] == l[k + 2]);
        }
        assert(l1[j - 1] == '/' && l1[j] == '/');
        lemma_comment_start_found(l1, j - 1);
        assert(!(l[0] == '/' && l[1] == '/'));
    }
}

/// [`comment_start`] is the length when no marker exists.
pub proof fn lemma_comment_start_none(l: Seq<char>)
    requires
        forall|k: int| 0 <= k && k + 2 <= l.len() ==> !((#[trigger] l[k]) == '/' && l[k + 1] == '/'),
    ensures
        comment_start(l) == l.len(),
    decreases l.len(),
{
    if l.len() >= 2 {
        let l1 = l.drop_first();
        assert(forall|k: int| 0 <= k && k + 2 <= l1.len() ==> !((#[trigger] l1[k]) == '/' && l1[k + 1] == '/'))
            by {
            assert(forall|k: int| 0 <= k && k + 2 <= l1.len() ==> (#[trigger] l1[k]) == l[k + 1] && l1[k + 1]
                == l[k + 2]);
        }
        lemma_comment_start_none(l1);
    }
}

/// `l` without any leading white space.
pub open spec fn ltrim(l: Seq<char>) -> Seq<char>
    decreases l.len(),
{
    if l.len() > 0 && is_space(l[0]) {
        ltrim(l.drop_first())
    } else {
        l
    }
}

/// `l` without any trailing white space.
pub open spec fn rtrim(l: Seq<char>) -> Seq<char>
    decreases l.len(),
{
    if l.len() > 0 && is_space(l.last()) {
        rtrim(l.drop_last())
    } else {
        l
    }
}

pub proof fn lemma_ltrim_skip(l: Seq<char>, a: int)
    requires
        0 <= a <= l.len(),
        forall|k: int| 0 <= k < a ==> is_space(l[k]),
        a < l.len() ==> !is_space(l[a]),
    ensures
        ltrim(l) == l.skip(a),
    decreases a,
{
    if a == 0 {
        assert(l.skip(0) =~= l);
    } else {
        let l1 = l.drop_first();
        assert(forall|k: int| 0 <= k < a - 1 ==> is_space(l1[k]));
        lemma_ltrim_skip(l1, a - 1);
        assert(l1.skip(a - 1) =~= l.skip(a));
    }
}

pub proof fn lemma_rtrim_take(l: Seq<char>, c: int)
    requires
        0 <= c <= l.len(),
        forall|k: int| c <= k < l.len() ==> is_space(l[k]),
        c > 0 ==> !is_space(l[c - 1]),
    ensures
        rtrim(l) == l.take(c),
    decreases l.len() - c,
{
    if c == l.len() {
        assert(l.take(c) =~= l);
    } else {
        let l1 = l.drop_last();
        assert(is_space(l.last()));
        assert(forall|k: int| c <= k < l1.len() ==> is_space(l1[k]));
        lemma_rtrim_take(l1, c);
        assert(l1.take(c) =~= l.take(c));
    }
}

/// A raw source line reduced to its content: the part before any comment
/// marker, with surrounding white space removed.
pub open spec fn clean_line(l: Seq<char>) -> Seq<char> {
    rtrim(ltrim(l.take(comment_start(l))))
}

/// The non-empty lines of a line sequence.
pub open spec fn nonempty_lines(ls: Seq<Seq<char>>) -> Seq<Seq<char>> {
    ls.filter(|t: Seq<char>| t.len() > 0)
}

/// Every line of a sequence, cleaned.
pub open spec fn cleaned(ls: Seq<Seq<char>>) -> Seq<Seq<char>> {
    ls.map_values(|l: Seq<char>| clean_line(l))
}

/// Logical lines of a line sequence: each line cleaned, blank results
/// dropped.
pub open spec fn clean_lines(ls: Seq<Seq<char>>) -> Seq<Seq<char>> {
    nonempty_lines(cleaned(ls))
}

/// Logical lines of a whole source text.
pub open spec fn logical_lines(s: Seq<char>) -> Seq<Seq<char>> {
    clean_lines(split_sep(s, '\n', Seq::empty()))
}

/// Tokens of a logical line: maximal runs of non-blank characters.
pub open spec fn tokens(l: Seq<char>) -> Seq<Seq<char>> {
    nonempty_lines(split_blank(l, Seq::empty()))
}

// ---------------------------------------------------------------------------
// Map/filter helpers
// ---------------------------------------------------------------------------

pub proof fn lemma_nonempty_add(a: Seq<Seq<char>>, b: Seq<Seq<char>>)
    ensures
        nonempty_lines(a + b) == nonempty_lines(a) + nonempty_lines(b),
{
    broadcast use vstd::prelude::Seq::filter_distributes_over_add;

}

pub proof fn lemma_clean_lines_add(a: Seq<Seq<char>>, b: Seq<Seq<char>>)
    ensures
        clean_lines(a + b) == clean_lines(a) + clean_lines(b),
{
    broadcast use vstd::prelude::Seq::filter_distributes_over_add;

    assert(cleaned(a + b) =~= cleaned(a) + cleaned(b));
}

pub proof fn lemma_clean_lines_singleton(x: Seq<char>)
    ensures
        clean_lines(seq![x]) == if clean_line(x).len() > 0 {
            seq![clean_line(x)]
        } else {
            Seq::<Seq<char>>::empty()
        },
{
    assert(cleaned(seq![x]) =~= seq![clean_line(x)]);
    lemma_nonempty_singleton(clean_line(x));
}

pub proof fn lemma_nonempty_push(a: Seq<Seq<char>>, x: Seq<char>)
    ensures
        nonempty_lines(a.push(x)) == if x.len() > 0 {
            nonempty_lines(a).push(x)
        } else {
            nonempty_lines(a)
        },
{
    broadcast use vstd::prelude::Seq::lemma_filter_push;

}

pub proof fn lemma_split_sep_len(s: Seq<char>, sep: char, cur: Seq<char>)
    ensures
        split_sep(s, sep, cur).len() >= 1,
    decreases s.len(),
{
    if s.len() > 0 {
        if s[0] == sep {
            lemma_split_sep_len(s.drop_first(), sep, Seq::empty());
        } else {
            lemma_split_sep_len(s.drop_first(), sep, cur.push(s[0]));
        }
    }
}

pub proof fn lemma_nonempty_singleton(x: Seq<char>)
    ensures
        nonempty_lines(seq![x]) == if x.len() > 0 {
            seq![x]
        } else {
            Seq::<Seq<char>>::empty()
        },
{
    reveal(Seq::filter);
    assert(seq![x].drop_last() =~= Seq::<Seq<char>>::empty());
    assert(nonempty_lines(Seq::<Seq<char>>::empty()) == Seq::<Seq<char>>::empty());
    if x.len() > 0 {
        assert(nonempty_lines(seq![x]) =~= seq![x]);
    } else {
        assert(nonempty_lines(seq![x]) =~= Seq::<Seq<char>>::empty());
    }
}

// ---------------------------------------------------------------------------
// Executable scanning helpers
// ---------------------------------------------------------------------------

/// First position of `sep` in `[from, to)` of `s`, or `to` when there is
/// none.
pub fn find_sep_in(s: &str, from: usize, to: usize, sep: char) -> (r: usize)
    requires
        from <= to <= s@.len(),
    ensures
        from <= r <= to,
        forall|k: int| from <= k < r ==> s@[k] != sep,
        r < to ==> s@[r as int] == sep,
{
    let mut i = from;
    while i < to
        invariant
            from <= i <= to <= s@.len(),
            forall|k: int| from <= k < i ==> s@[k] != sep,
        decreases to - i,
    {
        if s.get_char(i) == sep {
            return i;
        }
        i = i + 1;
    }
    to
}

/// First position of a `//` comment marker in `s`, or the length when there
/// is none.
pub fn find_comment(s: &str) -> (r: usize)
    ensures
        r == comment_start(s@),
{
    let n = s.unicode_len();
    let m = if n == 0 {
        0
    } else {
        n - 1
    };
    let mut i: usize = 0;
    while i < m
        invariant
            0 <= i <= n,
            n == s@.len(),
            m == if n == 0 {
                0int
            } else {
                n - 1
            },
            forall|k: int| 0 <= k < i ==> !((#[trigger] s@[k]) == '/' && s@[k + 1] == '/'),
        decreases m - i,
    {
        if s.get_char(i) == '/' && s.get_char(i + 1) == '/' {
            proof {
                lemma_comment_start_found(s@, i as int);
            }
            return i;
        }
        i = i + 1;
    }
    proof {
        lemma_comment_start_none(s@);
    }
    n
}

/// First position in `[from, to)` holding a non-space character, or `to`
/// when all of them are spaces.
pub fn scan_space_forward(s: &str, from: usize, to: usize) -> (r: usize)
    requires
        from <= to <= s@.len(),
    ensures
        from <= r <= to,
        forall|k: int| from <= k < r ==> is_space(s@[k]),
        r < to ==> !is_space(s@[r as int]),
{
    let mut i = from;
    while i < to
        invariant
            from <= i <= to <= s@.len(),
            forall|k: int| from <= k < i ==> is_space(s@[k]),
        decreases to - i,
    {
        if !space_char(s.get_char(i)) {
            return i;
        }
        i = i + 1;
    }
    to
}

/// Largest `r` in `[from, to]` such that everything in `[r, to)` is a space
/// and, unless `r == from`, the character before `r` is not.
pub fn scan_space_backward(s: &str, from: usize, to: usize) -> (r: usize)
    requires
        from <= to <= s@.len(),
    ensures
        from <= r <= to,
        forall|k: int| r <= k < to ==> is_space(s@[k]),
        r > from ==> !is_space(s@[r - 1]),
{
    let mut i = to;
    while i > from
        invariant
            from <= i <= to <= s@.len(),
            forall|k: int| i <= k < to ==> is_space(s@[k]),
        decreases i,
    {
        if !space_char(s.get_char(i - 1)) {
            return i;
        }
        i = i - 1;
    }
    from
}

/// Whether `c` occurs in `s`.
pub fn contains_char(s: &str, c: char) -> (r: bool)
    ensures
        r == s@.contains(c),
{
    let n = s.unicode_len();
    let mut i: usize = 0;
    while i < n
        invariant
            0 <= i <= n,
            n == s@.len(),
            forall|k: int| 0 <= k < i ==> s@[k] != c,
        decreases n - i,
    {
        if s.get_char(i) == c {
            assert(s@.contains(c));
            return true;
        }
        i = i + 1;
    }
    assert(!s@.contains(c));
    false
}

/// Whether two string slices hold the same characters.
pub fn str_eq(a: &str, b: &str) -> (r: bool)
    ensures
        r == (a@ == b@),
{
    let n = a.unicode_len();
    let m = b.unicode_len();
    if n != m {
        return false;
    }
    let mut i: usize = 0;
    while i < n
        invariant
            0 <= i <= n,
            n == a@.len(),
            n == b@.len(),
            forall|k: int| 0 <= k < i ==> a@[k] == b@[k],
        decreases n - i,
    {
        if a.get_char(i) != b.get_char(i) {
            return false;
        }
        i = i + 1;
    }
    assert(a@ =~= b@);
    true
}

/// The cleaned form of one raw line: comment stripped, ends trimmed.
pub fn clean_str(line: &str) -> (r: String)
    ensures
        r@ == clean_line(line@),
{
    proof {
        lemma_comment_start_bounds(line@);
    }
    let cs = find_comment(line);
    let a = scan_space_forward(line, 0, cs);
    let b = scan_space_backward(line, a, cs);
    let r = String::from_str(line.substring_char(a, b));
    proof {
        let l1 = line@.take(cs as int);
        lemma_ltrim_skip(l1, a as int);
        lemma_rtrim_take(l1.skip(a as int), b - a);
        assert(l1.skip(a as int).take(b - a) =~= line@.subrange(a as int, b as int));
    }
    r
}

/// The view of each string in a vector.
pub open spec fn views(v: Seq<String>) -> Seq<Seq<char>> {
    v.map_values(|t: String| t@)
}

/// The tokens of a line, as owned strings.
pub fn tokenize(line: &str) -> (r: Vec<String>)
    ensures
        views(r@) == tokens(line@),
{
    let n = line.unicode_len();
    let mut ts: Vec<String> = Vec::new();
    let mut i: usize = 0;
    proof {
        assert(line@.skip(0) =~= line@);
        assert(views(ts@) =~= Seq::<Seq<char>>::empty());
        assert(Seq::<Seq<char>>::empty() + tokens(line@) =~= tokens(line@));
    }
    while i < n
        invariant
            0 <= i <= n,
            n == line@.len(),
            tokens(line@) == views(ts@) + nonempty_lines(
                split_blank(line@.skip(i as int), Seq::empty()),
            ),
        decreases n - i,
    {
        let ghost rest = line@.skip(i as int);
        if blank_char(line.get_char(i)) {
            proof {
                lemma_split_blank_at(rest, Seq::empty(), 0);
                assert(Seq::<char>::empty() + rest.take(0) =~= Seq::<char>::empty());
                assert(rest.skip(1) =~= line@.skip(i + 1));
                let tail = split_blank(line@.skip(i + 1), Seq::empty());
                lemma_nonempty_add(seq![Seq::<char>::empty()], tail);
                lemma_nonempty_singleton(Seq::<char>::empty());
                assert(Seq::<Seq<char>>::empty() + nonempty_lines(tail) =~= nonempty_lines(tail));
            }
            i = i + 1;
        } else {
            let e = scan_blank_end(line, i, n);
            let tok = String::from_str(line.substring_char(i, e));
            let ghost old_ts = ts@;
            ts.push(tok);
            proof {
                let j = e - i;
                lemma_split_blank_at(rest, Seq::empty(), j);
                assert(Seq::<char>::empty() + rest.take(j) =~= tok@);
                assert(tok@.len() > 0);
                lemma_nonempty_singleton(tok@);
                assert(views(ts@) =~= views(old_ts).push(tok@));
                if e < n {
                    assert(rest.skip(j + 1) =~= line@.skip(e + 1));
                    let tail = split_blank(line@.skip(e + 1), Seq::empty());
                    lemma_nonempty_add(seq![tok@], tail);
                    assert(views(old_ts) + (seq![tok@] + nonempty_lines(tail)) =~= views(ts@)
                        + nonempty_lines(tail));
                } else {
                    assert(split_blank(rest, Seq::empty()) =~~= seq![tok@]);
                    assert(line@.skip(n as int) =~= Seq::<char>::empty());
                    assert(split_blank(Seq::<char>::empty(), Seq::empty()) =~~= seq![
                        Seq::<char>::empty(),
                    ]);
                    lemma_nonempty_singleton(Seq::<char>::empty());
                    assert(views(old_ts) + seq![tok@] =~= views(ts@) + nonempty_lines(
                        split_blank(line@.skip(n as int), Seq::empty()),
                    ));
                }
            }
            if e < n {
                i = e + 1;
            } else {
                i = e;
            }
        }
    }
    proof {
        assert(line@.skip(n as int) =~= Seq::<char>::empty());
        assert(split_blank(Seq::<char>::empty(), Seq::empty()) =~~= seq![Seq::<char>::empty()]);
        lemma_nonempty_singleton(Seq::<char>::empty());
        assert(views(ts@) + nonempty_lines(split_blank(line@.skip(n as int), Seq::empty()))
            =~= views(ts@));
    }
    ts
}

/// First blank position at or after `from`, or `to` when there is none.
fn scan_blank_end(s: &str, from: usize, to: usize) -> (r: usize)
    requires
        from <= to <= s@.len(),
    ensures
        from <= r <= to,
        forall|k: int| from <= k < r ==> !is_blank(s@[k]),
        r < to ==> is_blank(s@[r as int]),
{
    let mut i = from;
    while i < to
        invariant
            from <= i <= to <= s@.len(),
            forall|k: int| from <= k < i ==> !is_blank(s@[k]),
        decreases to - i,
    {
        if blank_char(s.get_char(i)) {
            return i;
        }
        i = i + 1;
    }
    to
}

} // verus!
