//! Texts as sequences of characters: conversion between strings and
//! character vectors, stripping a class of characters from the ends of a
//! text, searching a text for another, and splitting a text into lines.
//! Every executable function is specified against a function over
//! `Seq<char>`.

use vstd::prelude::*;

verus! {

/// Taken on trust of `String::push` of the standard library: the string
/// after the call is the string before it with `ch` added at its end.
pub assume_specification[ String::push ](s: &mut String, ch: char)
    ensures
        final(s)@ == old(s)@.push(ch),
;

// ---------------------------------------------------------------------------
// Strings and character vectors
// ---------------------------------------------------------------------------

/// The characters of `s`, in order.
pub fn chars_of(s: &str) -> (out: Vec<char>)
    ensures
        out@ == s@,
{
    let mut out: Vec<char> = Vec::new();
    let it = s.chars();
    for c in iter: it
        invariant
            out@ == iter.seq().take(iter.index@),
    {
        out.push(c);
    }
    out
}

/// The string made of the characters of `v`.
pub fn string_of(v: &Vec<char>) -> (out: String)
    ensures
        out@ == v@,
{
    let mut out = String::new();
    let mut i: usize = 0;
    while i < v.len()
        invariant
            i <= v@.len(),
            out@ == v@.take(i as int),
        decreases v@.len() - i,
    {
        out.push(v[i]);
        i += 1;
        assert(v@.take(i as int) == v@.take(i - 1).push(v@[i - 1]));
    }
    assert(v@.take(i as int) == v@);
    out
}

/// Appends the characters of `lit` to `out`.
pub fn push_str(out: &mut Vec<char>, lit: &str)
    ensures
        final(out)@ == old(out)@ + lit@,
{
    let ghost before = out@;
    let it = lit.chars();
    for c in iter: it
        invariant
            out@ == before + iter.seq().take(iter.index@),
    {
        out.push(c);
        assert(iter.seq().take(iter.index@ + 1) == iter.seq().take(iter.index@).push(c));
    }
}

/// Appends the characters of `part` to `out`.
pub fn push_all(out: &mut Vec<char>, part: &Vec<char>)
    ensures
        final(out)@ == old(out)@ + part@,
{
    let ghost before = out@;
    let mut i: usize = 0;
    while i < part.len()
        invariant
            i <= part@.len(),
            out@ == before + part@.take(i as int),
        decreases part@.len() - i,
    {
        out.push(part[i]);
        i += 1;
        assert(part@.take(i as int) == part@.take(i - 1).push(part@[i - 1]));
    }
    assert(part@.take(i as int) == part@);
}

/// A copy of `s[from..to]`.
pub fn slice(s: &Vec<char>, from: usize, to: usize) -> (out: Vec<char>)
    requires
        from <= to <= s@.len(),
    ensures
        out@ == s@.subrange(from as int, to as int),
{
    let mut out: Vec<char> = Vec::new();
    let mut i: usize = from;
    while i < to
        invariant
            from <= i <= to <= s@.len(),
            out@ == s@.subrange(from as int, i as int),
        decreases to - i,
    {
        out.push(s[i]);
        i += 1;
        assert(s@.subrange(from as int, i as int) == s@.subrange(from as int, i - 1).push(
            s@[i - 1],
        ));
    }
    out
}

/// Whether `s` holds exactly the characters of `lit`.
pub fn equals_str(s: &Vec<char>, lit: &str) -> (r: bool)
    ensures
        r == (s@ == lit@),
{
    let other = chars_of(lit);
    if s.len() != other.len() {
        return false;
    }
    let mut i: usize = 0;
    while i < s.len()
        invariant
            i <= s@.len(),
            other@ == lit@,
            s@.len() == other@.len(),
            forall|j: int| 0 <= j < i ==> s@[j] == other@[j],
        decreases s@.len() - i,
    {
        if s[i] != other[i] {
            return false;
        }
        i += 1;
    }
    assert(s@ =~= other@);
    true
}

// ---------------------------------------------------------------------------
// Whitespace and other classes of characters
// ---------------------------------------------------------------------------

/// The characters that Unicode gives the property `White_Space`.
pub open spec fn is_whitespace(c: char) -> bool {
    let u = c as u32;
    ||| 0x9 <= u <= 0xD
    ||| u == 0x20
    ||| u == 0x85
    ||| u == 0xA0
    ||| u == 0x1680
    ||| 0x2000 <= u <= 0x200A
    ||| u == 0x2028
    ||| u == 0x2029
    ||| u == 0x202F
    ||| u == 0x205F
    ||| u == 0x3000
}

/// A set of characters that can be stripped from the ends of a text.
#[derive(Clone, Copy, Debug, PartialEq, Eq)]
pub enum CharClass {
    /// Every whitespace character.
    Whitespace,
    /// The given character and no other.
    Only(char),
}

impl CharClass {
    /// Whether `c` belongs to the class.
    pub open spec fn has(self, c: char) -> bool {
        match self {
            CharClass::Whitespace => is_whitespace(c),
            CharClass::Only(k) => c == k,
        }
    }

    /// Whether `c` belongs to the class.
    pub fn contains(&self, c: char) -> (r: bool)
        ensures
            r == self.has(c),
    {
        match self {
            CharClass::Whitespace => {
                let u: u32 = c as u32;
                (0x9 <= u && u <= 0xD) || u == 0x20 || u == 0x85 || u == 0xA0 || u == 0x1680 || (
                0x2000 <= u && u <= 0x200A) || u == 0x2028 || u == 0x2029 || u == 0x202F || u
                    == 0x205F || u == 0x3000
            },
            CharClass::Only(k) => c == *k,
        }
    }
}

/// `s` without the characters of `class` that it starts with.
pub open spec fn without_leading(s: Seq<char>, class: CharClass) -> Seq<char>
    decreases s.len(),
{
    if s.len() > 0 && class.has(s[0]) {
        without_leading(s.drop_first(), class)
    } else {
        s
    }
}

/// `s` without the characters of `class` that it ends with.
pub open spec fn without_trailing(s: Seq<char>, class: CharClass) -> Seq<char>
    decreases s.len(),
{
    if s.len() > 0 && class.has(s.last()) {
        without_trailing(s.drop_last(), class)
    } else {
        s
    }
}

/// `s` without the characters of `class` at either end.
pub open spec fn stripped(s: Seq<char>, class: CharClass) -> Seq<char> {
    without_trailing(without_leading(s, class), class)
}

/// `s` without the whitespace at either end.
pub open spec fn trimmed(s: Seq<char>) -> Seq<char> {
    stripped(s, CharClass::Whitespace)
}

/// Where the first `k` characters belong to the class and the next one does
/// not, stripping the start leaves what follows them.
pub proof fn lemma_without_leading(s: Seq<char>, class: CharClass, k: int)
    requires
        0 <= k <= s.len(),
        forall|i: int| 0 <= i < k ==> class.has(#[trigger] s[i]),
        k < s.len() ==> !class.has(s[k]),
    ensures
        without_leading(s, class) == s.skip(k),
    decreases k,
{
    if k == 0 {
        assert(s.skip(0) =~= s);
    } else {
        assert(class.has(s[0]));
        let rest = s.drop_first();
        assert forall|i: int| 0 <= i < k - 1 implies class.has(#[trigger] rest[i]) by {
            assert(rest[i] == s[i + 1]);
        }
        lemma_without_leading(rest, class, k - 1);
        assert(rest.skip(k - 1) =~= s.skip(k));
    }
}

/// Where the characters from `k` on belong to the class and the one before
/// them does not, stripping the end leaves the first `k` characters.
pub proof fn lemma_without_trailing(s: Seq<char>, class: CharClass, k: int)
    requires
        0 <= k <= s.len(),
        forall|i: int| k <= i < s.len() ==> class.has(#[trigger] s[i]),
        k > 0 ==> !class.has(s[k - 1]),
    ensures
        without_trailing(s, class) == s.take(k),
    decreases s.len() - k,
{
    if k == s.len() {
        assert(s.take(k) =~= s);
    } else {
        assert(class.has(s.last()));
        let rest = s.drop_last();
        assert forall|i: int| k <= i < rest.len() implies class.has(#[trigger] rest[i]) by {
            assert(rest[i] == s[i]);
        }
        lemma_without_trailing(rest, class, k);
        assert(rest.take(k) =~= s.take(k));
    }
}

/// A copy of `s` without the characters of `class` that it starts with.
pub fn strip_start(s: &Vec<char>, class: CharClass) -> (out: Vec<char>)
    ensures
        out@ == without_leading(s@, class),
{
    let mut k: usize = 0;
    while k < s.len() && class.contains(s[k])
        invariant
            k <= s@.len(),
            forall|i: int| 0 <= i < k ==> class.has(#[trigger] s@[i]),
        decreases s@.len() - k,
    {
        k += 1;
    }
    proof {
        lemma_without_leading(s@, class, k as int);
    }
    slice(s, k, s.len())
}

/// A copy of `s` without the characters of `class` that it ends with.
pub fn strip_end(s: &Vec<char>, class: CharClass) -> (out: Vec<char>)
    ensures
        out@ == without_trailing(s@, class),
{
    let mut k: usize = s.len();
    while k > 0 && class.contains(s[k - 1])
        invariant
            k <= s@.len(),
            forall|i: int| k <= i < s@.len() ==> class.has(#[trigger] s@[i]),
        decreases k,
    {
        k -= 1;
    }
    proof {
        lemma_without_trailing(s@, class, k as int);
    }
    slice(s, 0, k)
}

/// A copy of `s` without the characters of `class` at either end.
pub fn strip(s: &Vec<char>, class: CharClass) -> (out: Vec<char>)
    ensures
        out@ == stripped(s@, class),
{
    let front = strip_start(s, class);
    strip_end(&front, class)
}

// ---------------------------------------------------------------------------
// Search
// ---------------------------------------------------------------------------

/// Whether `pat` stands in `s` at index `i`.
pub open spec fn occurs_at(s: Seq<char>, pat: Seq<char>, i: int) -> bool {
    0 <= i && i + pat.len() <= s.len() && s.subrange(i, i + pat.len()) == pat
}

/// The least index from `from` on at which `pat` stands in `s`.
pub open spec fn first_occurrence(s: Seq<char>, pat: Seq<char>, from: int) -> Option<int>
    decreases s.len() - from + 1,
{
    if from < 0 || from + pat.len() > s.len() {
        None
    } else if occurs_at(s, pat, from) {
        Some(from)
    } else {
        first_occurrence(s, pat, from + 1)
    }
}

/// An occurrence with none before it is the first.
pub proof fn lemma_first_occurrence(s: Seq<char>, pat: Seq<char>, from: int, at: int)
    requires
        0 <= from <= at,
        occurs_at(s, pat, at),
        forall|j: int| from <= j < at ==> !occurs_at(s, pat, j),
    ensures
        first_occurrence(s, pat, from) == Some(at),
    decreases at - from,
{
    if from < at {
        lemma_first_occurrence(s, pat, from + 1, at);
    }
}

/// Where the pattern stands nowhere from `from` on, there is no first
/// occurrence.
pub proof fn lemma_no_occurrence(s: Seq<char>, pat: Seq<char>, from: int)
    requires
        0 <= from,
        forall|j: int| from <= j ==> !occurs_at(s, pat, j),
    ensures
        first_occurrence(s, pat, from) is None,
    decreases s.len() - from + 1,
{
    if from + pat.len() <= s.len() {
        lemma_no_occurrence(s, pat, from + 1);
    }
}

/// Whether `pat` stands in `s` at index `i`.
pub fn matches_at(s: &Vec<char>, pat: &Vec<char>, i: usize) -> (r: bool)
    ensures
        r == occurs_at(s@, pat@, i as int),
{
    let n = s.len();
    let m = pat.len();
    if m > n || i > n - m {
        return false;
    }
    let mut k: usize = 0;
    while k < m
        invariant
            k <= m,
            m == pat@.len(),
            n == s@.len(),
            i + m <= n,
            forall|j: int| 0 <= j < k ==> s@[i + j] == pat@[j],
        decreases m - k,
    {
        if s[i + k] != pat[k] {
            assert(s@.subrange(i as int, i + m)[k as int] != pat@[k as int]);
            return false;
        }
        k += 1;
    }
    assert(s@.subrange(i as int, i + m) =~= pat@);
    true
}

/// The least index from `from` on at which `pat` stands in `s`.
pub fn find(s: &Vec<char>, pat: &Vec<char>, from: usize) -> (r: Option<usize>)
    ensures
        match r {
            Some(at) => occurs_at(s@, pat@, at as int) && first_occurrence(s@, pat@, from as int)
                == Some(at as int),
            None => first_occurrence(s@, pat@, from as int) is None,
        },
{
    let n = s.len();
    let m = pat.len();
    if m > n || from > n - m {
        return None;
    }
    let last = n - m;
    let mut i: usize = from;
    loop
        invariant
            from <= i <= last,
            last + m == n,
            m == pat@.len(),
            n == s@.len(),
            first_occurrence(s@, pat@, from as int) == first_occurrence(s@, pat@, i as int),
        decreases last - i,
    {
        if matches_at(s, pat, i) {
            return Some(i);
        }
        if i == last {
            assert(first_occurrence(s@, pat@, i + 1) is None);
            return None;
        }
        i += 1;
    }
}

// ---------------------------------------------------------------------------
// Lines
// ---------------------------------------------------------------------------

/// The length of the first line of `s`: the index of its first line feed, or
/// its length where it has none.
pub open spec fn line_end(s: Seq<char>) -> int
    decreases s.len(),
{
    if s.len() == 0 || s[0] == '\n' {
        0
    } else {
        1 + line_end(s.drop_first())
    }
}

/// What follows the first line of `s` and the line feed that ends it.
pub open spec fn after_line(s: Seq<char>) -> Seq<char> {
    if line_end(s) < s.len() {
        s.skip(line_end(s) + 1)
    } else {
        Seq::empty()
    }
}

/// The lines of `s`. A line ends at a line feed, which is not part of it;
/// what follows the last line feed is a line too unless it is empty.
pub open spec fn lines(s: Seq<char>) -> Seq<Seq<char>>
    decreases s.len(),
    via lines_decreases
{
    if s.len() == 0 {
        Seq::empty()
    } else {
        seq![s.take(line_end(s))] + lines(after_line(s))
    }
}

#[via_fn]
proof fn lines_decreases(s: Seq<char>) {
    lemma_line_end_bounds(s);
}

/// The first line ends within the text.
pub proof fn lemma_line_end_bounds(s: Seq<char>)
    ensures
        0 <= line_end(s) <= s.len(),
    decreases s.len(),
{
    if s.len() > 0 && s[0] != '\n' {
        lemma_line_end_bounds(s.drop_first());
    }
}

/// Where no line feed stands before index `k` and one stands there, or the
/// text ends there, the first line has length `k`.
pub proof fn lemma_line_end(s: Seq<char>, k: int)
    requires
        0 <= k <= s.len(),
        forall|i: int| 0 <= i < k ==> #[trigger] s[i] != '\n',
        k < s.len() ==> s[k] == '\n',
    ensures
        line_end(s) == k,
    decreases k,
{
    if k > 0 {
        let rest = s.drop_first();
        assert forall|i: int| 0 <= i < k - 1 implies #[trigger] rest[i] != '\n' by {
            assert(rest[i] == s[i + 1]);
        }
        lemma_line_end(rest, k - 1);
    }
}

/// The index of the first line feed in `s` from `from` on, or the length of
/// `s` where there is none.
pub fn find_line_end(s: &Vec<char>, from: usize) -> (end: usize)
    requires
        from <= s@.len(),
    ensures
        from <= end <= s@.len(),
        end - from == line_end(s@.skip(from as int)),
{
    let mut k: usize = from;
    while k < s.len() && s[k] != '\n'
        invariant
            from <= k <= s@.len(),
            forall|i: int| from <= i < k ==> #[trigger] s@[i] != '\n',
        decreases s@.len() - k,
    {
        k += 1;
    }
    proof {
        let rest = s@.skip(from as int);
        assert forall|i: int| 0 <= i < k - from implies #[trigger] rest[i] != '\n' by {
            assert(rest[i] == s@[from + i]);
        }
        lemma_line_end(rest, k - from);
    }
    k
}

} // verus!
