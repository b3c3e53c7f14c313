//! Unsigned decimal numbers as text: writing them, with or without zero
//! padding, and reading them back.

use vstd::prelude::*;
use crate::text::push_all;

verus! {

/// Whether `c` is one of the ten digits `0` to `9`.
pub open spec fn is_digit(c: char) -> bool {
    '0' <= c && c <= '9'
}

/// The value of a decimal digit.
pub open spec fn digit_value(c: char) -> nat
    recommends
        is_digit(c),
{
    (c as u32 - 48) as nat
}

/// The character for a value below ten.
pub open spec fn digit_char(d: nat) -> char
    recommends
        d < 10,
{
    (d + 48) as char
}

/// The shortest decimal representation of `n`.
pub open spec fn decimal(n: nat) -> Seq<char>
    decreases n,
{
    if n < 10 {
        seq![digit_char(n)]
    } else {
        decimal(n / 10).push(digit_char(n % 10))
    }
}

/// `count` times the character `'0'`.
pub open spec fn zeros(count: nat) -> Seq<char> {
    Seq::new(count, |i: int| '0')
}

/// The decimal representation of `n`, filled up with leading zeros to at
/// least `width` characters. A number with more digits is not shortened.
pub open spec fn zero_padded(n: nat, width: nat) -> Seq<char> {
    let digits = decimal(n);
    if digits.len() >= width {
        digits
    } else {
        zeros((width - digits.len()) as nat) + digits
    }
}

/// Whether `s` holds digits and nothing else.
pub open spec fn all_digits(s: Seq<char>) -> bool {
    forall|i: int| 0 <= i < s.len() ==> is_digit(#[trigger] s[i])
}

/// The number that a sequence of digits denotes; leading zeros count for
/// nothing.
pub open spec fn number_of(s: Seq<char>) -> nat
    decreases s.len(),
{
    if s.len() == 0 {
        0
    } else {
        number_of(s.drop_last()) * 10 + digit_value(s.last())
    }
}

/// The part of an unsigned literal that holds its digits: everything after
/// one optional leading `'+'`.
pub open spec fn literal_digits(s: Seq<char>) -> Seq<char> {
    if s.len() > 0 && s[0] == '+' {
        s.drop_first()
    } else {
        s
    }
}

/// What `s` denotes as an unsigned number no greater than `max`: an optional
/// `'+'`, then at least one digit and nothing else. `None` for any other
/// text and for a number above `max`.
pub open spec fn unsigned_literal(s: Seq<char>, max: nat) -> Option<nat> {
    let digits = literal_digits(s);
    if digits.len() > 0 && all_digits(digits) && number_of(digits) <= max {
        Some(number_of(digits))
    } else {
        None
    }
}

// ---------------------------------------------------------------------------
// Facts about the representation
// ---------------------------------------------------------------------------

/// `decimal(n)` is a non-empty run of digits that denotes `n`.
pub proof fn lemma_decimal_denotes(n: nat)
    ensures
        decimal(n).len() >= 1,
        all_digits(decimal(n)),
        number_of(decimal(n)) == n,
    decreases n,
{
    if n < 10 {
        assert(decimal(n) =~= seq![digit_char(n)]);
        assert(decimal(n).drop_last() =~= Seq::<char>::empty());
        assert(number_of(decimal(n).drop_last()) == 0);
        assert(number_of(decimal(n)) == n);
    } else {
        lemma_decimal_denotes(n / 10);
        let rest = decimal(n / 10);
        let all = rest.push(digit_char(n % 10));
        assert(decimal(n) == all);
        assert(all.drop_last() =~= rest);
        assert(all.last() == digit_char(n % 10));
        assert forall|i: int| 0 <= i < all.len() implies is_digit(#[trigger] all[i]) by {
            if i < rest.len() {
                assert(all[i] == rest[i]);
            }
        }
    }
}

/// How many digits small numbers take.
pub proof fn lemma_decimal_len(n: nat)
    ensures
        n < 10 ==> decimal(n).len() == 1,
        10 <= n < 100 ==> decimal(n).len() == 2,
        100 <= n < 1000 ==> decimal(n).len() == 3,
        1000 <= n < 10000 ==> decimal(n).len() == 4,
        n >= 10000 ==> decimal(n).len() >= 5,
    decreases n,
{
    if n >= 10 {
        lemma_decimal_len(n / 10);
    }
}

/// Leading zeros do not change the number.
pub proof fn lemma_number_of_zeros(count: nat, digits: Seq<char>)
    ensures
        number_of(zeros(count) + digits) == number_of(digits),
    decreases digits.len(),
{
    let all = zeros(count) + digits;
    if digits.len() == 0 {
        assert(all =~= zeros(count));
        lemma_zeros_denote(count);
    } else {
        lemma_number_of_zeros(count, digits.drop_last());
        assert(all.drop_last() =~= zeros(count) + digits.drop_last());
        assert(all.last() == digits.last());
    }
}

/// A run of zeros denotes zero.
pub proof fn lemma_zeros_denote(count: nat)
    ensures
        number_of(zeros(count)) == 0,
    decreases count,
{
    if count > 0 {
        lemma_zeros_denote((count - 1) as nat);
        assert(zeros(count).drop_last() =~= zeros((count - 1) as nat));
    }
}

/// A zero-padded number is a run of digits that denotes the number, and
/// has exactly the asked width where the number fits in it.
pub proof fn lemma_zero_padded_denotes(n: nat, width: nat)
    ensures
        zero_padded(n, width).len() >= 1,
        zero_padded(n, width).len() >= width,
        decimal(n).len() <= width ==> zero_padded(n, width).len() == width,
        all_digits(zero_padded(n, width)),
        number_of(zero_padded(n, width)) == n,
{
    lemma_decimal_denotes(n);
    let digits = decimal(n);
    if digits.len() < width {
        let count = (width - digits.len()) as nat;
        lemma_number_of_zeros(count, digits);
        let all = zeros(count) + digits;
        assert forall|i: int| 0 <= i < all.len() implies is_digit(#[trigger] all[i]) by {
            if i >= count {
                assert(all[i] == digits[i - count]);
            }
        }
    }
}

/// Reading a zero-padded number gives the number back.
pub proof fn lemma_read_zero_padded(n: nat, width: nat, max: nat)
    requires
        n <= max,
    ensures
        unsigned_literal(zero_padded(n, width), max) == Some(n),
{
    lemma_zero_padded_denotes(n, width);
    let s = zero_padded(n, width);
    assert(is_digit(s[0]));
    assert(literal_digits(s) == s);
}

/// Reading a written number gives the number back.
pub proof fn lemma_read_decimal(n: nat, max: nat)
    requires
        n <= max,
    ensures
        unsigned_literal(decimal(n), max) == Some(n),
{
    lemma_decimal_denotes(n);
    let s = decimal(n);
    assert(is_digit(s[0]));
    assert(literal_digits(s) == s);
}

/// A prefix of a run of digits denotes no more than the whole run.
pub proof fn lemma_number_of_prefix(s: Seq<char>, k: int)
    requires
        0 <= k <= s.len(),
    ensures
        number_of(s.take(k)) <= number_of(s),
    decreases s.len() - k,
{
    if k == s.len() {
        assert(s.take(k) =~= s);
    } else {
        lemma_number_of_prefix(s, k + 1);
        assert(s.take(k + 1).drop_last() =~= s.take(k));
    }
}

// ---------------------------------------------------------------------------
// Executable functions
// ---------------------------------------------------------------------------

/// Appends the decimal representation of `n` to `out`.
pub fn push_decimal(out: &mut Vec<char>, n: u64)
    ensures
        final(out)@ == old(out)@ + decimal(n as nat),
    decreases n,
{
    if n < 10 {
        let d: u8 = n as u8;
        out.push((d + 48) as char);
        assert(out@ =~= old(out)@ + decimal(n as nat));
    } else {
        push_decimal(out, n / 10);
        let d: u8 = (n % 10) as u8;
        out.push((d + 48) as char);
        assert(out@ =~= old(out)@ + decimal(n as nat));
    }
}

/// Appends `n` to `out`, with leading zeros up to `width` characters.
pub fn push_zero_padded(out: &mut Vec<char>, n: u64, width: usize)
    ensures
        final(out)@ == old(out)@ + zero_padded(n as nat, width as nat),
{
    let mut digits: Vec<char> = Vec::new();
    push_decimal(&mut digits, n);
    assert(digits@ =~= decimal(n as nat));
    let mut k: usize = digits.len();
    while k < width
        invariant
            digits@.len() <= k,
            digits@.len() < width ==> k <= width,
            digits@.len() >= width ==> k == digits@.len(),
            out@ == old(out)@ + zeros((k - digits@.len()) as nat),
        decreases width - k,
    {
        out.push('0');
        k += 1;
        assert(out@ =~= old(out)@ + zeros((k - digits@.len()) as nat));
    }
    push_all(out, &digits);
    proof {
        if digits@.len() >= width {
            assert(zeros(0) =~= Seq::<char>::empty());
        }
        assert(out@ =~= old(out)@ + zero_padded(n as nat, width as nat));
    }
}

/// Reads an unsigned number no greater than `max`.
pub fn parse_unsigned(s: &Vec<char>, max: u64) -> (r: Option<u64>)
    ensures
        match r {
            Some(n) => unsigned_literal(s@, max as nat) == Some(n as nat),
            None => unsigned_literal(s@, max as nat) is None,
        },
{
    let start: usize = if s.len() > 0 && s[0] == '+' {
        1
    } else {
        0
    };
    let ghost digits = literal_digits(s@);
    assert(digits =~= s@.subrange(start as int, s@.len() as int));
    if start == s.len() {
        return None;
    }
    let mut acc: u64 = 0;
    let mut i: usize = start;
    assert(digits.take(0) =~= Seq::<char>::empty());
    while i < s.len()
        invariant
            start <= i <= s@.len(),
            digits == s@.subrange(start as int, s@.len() as int),
            digits == literal_digits(s@),
            digits.len() > 0,
            all_digits(digits.take(i - start)),
            acc as nat == number_of(digits.take(i - start)),
            acc <= max,
        decreases s@.len() - i,
    {
        let c = s[i];
        let ghost upto = digits.take(i - start + 1);
        proof {
            assert(upto.drop_last() =~= digits.take(i - start));
            assert(upto.last() == c);
            assert(digits[i - start] == c);
        }
        if !('0' <= c && c <= '9') {
            return None;
        }
        let d: u64 = (c as u32 - 48) as u64;
        proof {
            lemma_number_of_prefix(digits, i - start + 1);
        }
        if acc > max / 10 {
            return None;
        }
        if d > max - acc * 10 {
            return None;
        }
        acc = acc * 10 + d;
        i += 1;
        proof {
            assert forall|j: int| 0 <= j < upto.len() implies is_digit(#[trigger] upto[j]) by {
                if j < upto.len() - 1 {
                    assert(upto[j] == digits.take(i - 1 - start)[j]);
                }
            }
        }
    }
    assert(digits.take(i - start) =~= digits);
    Some(acc)
}

} // verus!
