//! Building blocks for status-line text: repeated glyphs, decimal numbers
//! and joined lists, each with a sequence-of-characters model.

use itertools::Itertools;
use vstd::prelude::*;

verus! {

/// `count` copies of `c`.
pub open spec fn repeated(c: char, count: nat) -> Seq<char> {
    Seq::new(count, |i: int| c)
}

/// The character of a decimal digit `d < 10`.
pub open spec fn digit_char(d: nat) -> char {
    if d == 0 {
        '0'
    } else if d == 1 {
        '1'
    } else if d == 2 {
        '2'
    } else if d == 3 {
        '3'
    } else if d == 4 {
        '4'
    } else if d == 5 {
        '5'
    } else if d == 6 {
        '6'
    } else if d == 7 {
        '7'
    } else if d == 8 {
        '8'
    } else {
        '9'
    }
}

/// The decimal numeral of `v`, most significant digit first, without
/// leading zeros; `0` is written `"0"`.
pub open spec fn decimal(v: nat) -> Seq<char>
    decreases v,
{
    if v < 10 {
        seq![digit_char(v)]
    } else {
        decimal(v / 10).push(digit_char(v % 10))
    }
}

/// The least `w` with `v < 10^w`: the number of digits of `v`, taking `0`
/// to have none.
pub open spec fn digit_count(v: nat) -> nat
    decreases v,
{
    if v == 0 {
        0
    } else {
        1 + digit_count(v / 10)
    }
}

/// `v` in decimal, padded on the left with `'0'` to at least `width`
/// characters. A numeral longer than `width` is not cut.
pub open spec fn zero_padded(v: nat, width: nat) -> Seq<char> {
    let numeral = decimal(v);
    if numeral.len() >= width {
        numeral
    } else {
        repeated('0', (width - numeral.len()) as nat) + numeral
    }
}

/// The items of `parts` in order, with `sep` between each two neighbours.
pub open spec fn joined(parts: Seq<Seq<char>>, sep: Seq<char>) -> Seq<char>
    decreases parts.len(),
{
    if parts.len() == 0 {
        Seq::empty()
    } else if parts.len() == 1 {
        parts[0]
    } else {
        joined(parts.drop_last(), sep) + sep + parts.last()
    }
}

/// The views of a list of strings.
pub open spec fn views(parts: Seq<String>) -> Seq<Seq<char>> {
    parts.map_values(|p: String| p@)
}

/// `String::push` appends one character and changes nothing else.
pub assume_specification[ String::push ](s: &mut String, ch: char)
    ensures
        final(s)@ == old(s)@.push(ch),
;

/// `Itertools::join` on the strings of `parts`: they are written out in
/// order with `sep` between neighbours, and an empty list gives the empty
/// string. Not proved; it is the documented behaviour of the call.
#[verifier::external_body]
pub(crate) fn join(parts: &Vec<String>, sep: &str) -> (s: String)
    ensures
        s@ == joined(views(parts@), sep@),
{
    parts.iter().join(sep)
}

/// A numeral has as many characters as the number has digits, and one for
/// zero.
pub proof fn lemma_decimal_len(v: nat)
    ensures
        decimal(v).len() == if v == 0 {
            1
        } else {
            digit_count(v)
        },
    decreases v,
{
    if v >= 10 {
        lemma_decimal_len(v / 10);
    } else if v > 0 {
        assert(v / 10 == 0);
        assert(digit_count(v / 10) == 0);
    }
}

/// Appends `count` copies of `c` to `out`.
pub fn push_repeated(out: &mut String, c: char, count: usize)
    ensures
        final(out)@ == old(out)@ + repeated(c, count as nat),
{
    let mut k: usize = 0;
    while k < count
        invariant
            k <= count,
            out@ == old(out)@ + repeated(c, k as nat),
        decreases count - k,
    {
        out.push(c);
        k += 1;
        assert(out@ =~= old(out)@ + repeated(c, k as nat));
    }
}

/// The character of the digit `d`.
pub fn digit(d: usize) -> (c: char)
    requires
        d < 10,
    ensures
        c == digit_char(d as nat),
{
    if d == 0 {
        '0'
    } else if d == 1 {
        '1'
    } else if d == 2 {
        '2'
    } else if d == 3 {
        '3'
    } else if d == 4 {
        '4'
    } else if d == 5 {
        '5'
    } else if d == 6 {
        '6'
    } else if d == 7 {
        '7'
    } else if d == 8 {
        '8'
    } else {
        '9'
    }
}

/// Appends the decimal numeral of `v` to `out`.
pub fn push_decimal(out: &mut String, v: usize)
    ensures
        final(out)@ == old(out)@ + decimal(v as nat),
    decreases v,
{
    if v >= 10 {
        push_decimal(out, v / 10);
    }
    out.push(digit(v % 10));
    assert(out@ =~= old(out)@ + decimal(v as nat));
}

/// Appends `v` in decimal, padded on the left with zeros to `width`.
pub fn push_zero_padded(out: &mut String, v: usize, width: usize)
    ensures
        final(out)@ == old(out)@ + zero_padded(v as nat, width as nat),
{
    let len = decimal_len(v);
    if len < width {
        push_repeated(out, '0', width - len);
    }
    push_decimal(out, v);
    assert(out@ =~= old(out)@ + zero_padded(v as nat, width as nat));
}

/// Ten to the power `k`.
pub open spec fn pow10(k: nat) -> nat
    decreases k,
{
    if k == 0 {
        1
    } else {
        10 * pow10((k - 1) as nat)
    }
}

/// `digit_count(v)` is the least exponent `w` with `v < 10^w`, that is the
/// ceiling of the base-ten logarithm of `v + 1`.
pub proof fn lemma_digit_count_is_least(v: nat)
    ensures
        v < pow10(digit_count(v)),
        digit_count(v) > 0 ==> pow10((digit_count(v) - 1) as nat) <= v,
    decreases v,
{
    if v > 0 {
        lemma_digit_count_is_least(v / 10);
        if v < 10 {
            assert(v / 10 == 0);
            assert(digit_count(0) == 0);
            assert(pow10(1) == 10 * pow10(0));
        }
    }
}

/// A number below `10^k` has at most `k` digits.
pub proof fn lemma_digit_count_bound(v: nat, k: nat)
    requires
        v < pow10(k),
    ensures
        digit_count(v) <= k,
    decreases v,
{
    if v > 0 {
        assert(k > 0);
        lemma_digit_count_bound(v / 10, (k - 1) as nat);
    }
}

/// The length of the numeral of `v`.
pub fn decimal_len(v: usize) -> (len: usize)
    ensures
        len == decimal(v as nat).len(),
        1 <= len <= 20,
{
    proof {
        lemma_decimal_len(v as nat);
    }
    if v == 0 {
        1
    } else {
        count_digits(v)
    }
}

/// Counts the digits of `v`; zero has none.
pub fn count_digits(v: usize) -> (w: usize)
    ensures
        w == digit_count(v as nat),
        w <= 20,
{
    proof {
        assert(pow10(20) == 100000000000000000000) by {
            reveal_with_fuel(pow10, 21);
        }
        lemma_digit_count_bound(v as nat, 20);
    }
    let mut rest: usize = v;
    let mut w: usize = 0;
    while rest > 0
        invariant
            w + digit_count(rest as nat) == digit_count(v as nat),
            digit_count(v as nat) <= 20,
        decreases rest,
    {
        rest = rest / 10;
        w += 1;
    }
    w
}

} // verus!
