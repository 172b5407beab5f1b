//! Decimal numerals: spec-level digit sequences, their numeric value, and
//! executable conversions between machine integers and digit strings.
//!
//! Metric tokens arrive as text; everything here keeps the correspondence
//! between a digit string and the number it denotes exact, so that parsing
//! and rendering can be proved inverse to each other.

use vstd::prelude::*;

verus! {

pub open spec fn pow10(n: nat) -> nat
    decreases n,
{
    if n == 0 {
        1
    } else {
        10 * pow10((n - 1) as nat)
    }
}

pub proof fn lemma_pow10_pos(n: nat)
    ensures
        pow10(n) >= 1,
    decreases n,
{
    if n > 0 {
        lemma_pow10_pos((n - 1) as nat);
    }
}

pub proof fn lemma_pow10_mono(a: nat, b: nat)
    requires
        a <= b,
    ensures
        pow10(a) <= pow10(b),
    decreases b,
{
    if a < b {
        lemma_pow10_mono(a, (b - 1) as nat);
        lemma_pow10_pos((b - 1) as nat);
    }
}

pub proof fn lemma_pow10_19()
    ensures
        pow10(9) == 1000000000,
        pow10(18) == 0x_de0b6b3a7640000,
        pow10(19) == 10000000000000000000,
{
    reveal_with_fuel(pow10, 21);
}

pub open spec fn is_digit(c: char) -> bool {
    c == '0' || c == '1' || c == '2' || c == '3' || c == '4' || c == '5' || c == '6' || c == '7'
        || c == '8' || c == '9'
}

pub open spec fn digit_val(c: char) -> nat {
    if c == '0' {
        0
    } else if c == '1' {
        1
    } else if c == '2' {
        2
    } else if c == '3' {
        3
    } else if c == '4' {
        4
    } else if c == '5' {
        5
    } else if c == '6' {
        6
    } else if c == '7' {
        7
    } else if c == '8' {
        8
    } else {
        9
    }
}

pub open spec fn digit_char(d: nat) -> char {
    if d == 0 {
        '0'
    } else if d == 1 {
        '1'
    } else if d == 2 {
        '2'
    } else if d == 3 {
        '3'
    } else if d == 4 {
        '4'
    } else if d == 5 {
        '5'
    } else if d == 6 {
        '6'
    } else if d == 7 {
        '7'
    } else if d == 8 {
        '8'
    } else {
        '9'
    }
}

pub open spec fn all_digits(s: Seq<char>) -> bool {
    forall|i: int| 0 <= i < s.len() ==> is_digit(#[trigger] s[i])
}

/// The number denoted by a digit string, most significant digit first.
pub open spec fn digits_val(s: Seq<char>) -> nat
    decreases s.len(),
{
    if s.len() == 0 {
        0
    } else {
        digits_val(s.drop_last()) * 10 + digit_val(s.last())
    }
}

/// The canonical digit string of a number: no superfluous leading zero.
pub open spec fn dec_digits(n: nat) -> Seq<char>
    decreases n,
{
    if n < 10 {
        seq![digit_char(n)]
    } else {
        dec_digits(n / 10).push(digit_char(n % 10))
    }
}

pub open spec fn zeros(n: nat) -> Seq<char> {
    Seq::new(n, |i: int| '0')
}

pub proof fn lemma_digit_roundtrip(c: char, d: nat)
    ensures
        is_digit(c) ==> digit_char(digit_val(c)) == c,
        d < 10 ==> digit_val(digit_char(d)) == d && is_digit(digit_char(d)),
{
}

pub proof fn lemma_digits_val_bound(s: Seq<char>)
    requires
        all_digits(s),
    ensures
        digits_val(s) < pow10(s.len()),
    decreases s.len(),
{
    if s.len() > 0 {
        lemma_digits_val_bound(s.drop_last());
    }
}

pub proof fn lemma_digits_val_lower(s: Seq<char>)
    requires
        all_digits(s),
        s.len() >= 1,
        s[0] != '0',
    ensures
        digits_val(s) >= pow10((s.len() - 1) as nat),
    decreases s.len(),
{
    if s.len() > 1 {
        lemma_digits_val_lower(s.drop_last());
    }
}

pub proof fn lemma_dec_digits(n: nat)
    ensures
        dec_digits(n).len() >= 1,
        all_digits(dec_digits(n)),
        digits_val(dec_digits(n)) == n,
        n >= 1 ==> dec_digits(n)[0] != '0',
        n == 0 ==> dec_digits(n) == seq!['0'],
        n < pow10(dec_digits(n).len()),
    decreases n,
{
    lemma_digit_roundtrip(' ', n % 10);
    if n < 10 {
        reveal_with_fuel(digits_val, 2);
        lemma_digit_roundtrip(' ', n);
        assert(dec_digits(n).drop_last() =~= Seq::<char>::empty());
        lemma_pow10_pos(dec_digits(n).len());
        assert(pow10(1) == 10 * pow10(0));
    } else {
        lemma_dec_digits(n / 10);
        let prefix = dec_digits(n / 10);
        let whole = dec_digits(n);
        assert(whole.drop_last() =~= prefix);
        assert(n / 10 >= 1);
        assert(whole[0] == prefix[0]);
        assert(digits_val(whole) == (n / 10) * 10 + n % 10);
        assert((n / 10) * 10 + n % 10 == n) by (nonlinear_arith);
        assert(pow10(whole.len()) == 10 * pow10(prefix.len()));
        assert(n / 10 < pow10(prefix.len()));
        assert(n < pow10(whole.len())) by (nonlinear_arith)
            requires
                n / 10 < pow10(prefix.len()),
                pow10(whole.len()) == 10 * pow10(prefix.len()),
                n >= 10,
        {
        }
    }
}

/// A digit string with no superfluous leading zero is recovered exactly
/// from its numeric value.
pub proof fn lemma_digits_canon(s: Seq<char>)
    requires
        all_digits(s),
        s.len() >= 1,
        s.len() > 1 ==> s[0] != '0',
    ensures
        dec_digits(digits_val(s)) == s,
    decreases s.len(),
{
    let v = digits_val(s);
    if s.len() == 1 {
        reveal_with_fuel(digits_val, 2);
        lemma_digit_roundtrip(s[0], 0);
        assert(s.drop_last() =~= Seq::<char>::empty());
        assert(v == digit_val(s[0]));
        assert(dec_digits(v) =~= s);
    } else {
        let p = s.drop_last();
        let d = digit_val(s.last());
        assert(p[0] == s[0]);
        lemma_digits_canon(p);
        if p.len() == 1 {
            assert(digit_val(p[0]) >= 1);
            assert(p.drop_last() =~= Seq::<char>::empty());
            assert(digits_val(p) >= 1);
        } else {
            lemma_digits_val_lower(p);
            lemma_pow10_pos((p.len() - 1) as nat);
        }
        assert(v == digits_val(p) * 10 + d);
        assert(v >= 10 && v / 10 == digits_val(p) && v % 10 == d) by (nonlinear_arith)
            requires
                v == digits_val(p) * 10 + d,
                digits_val(p) >= 1,
                d < 10,
        {
        }
        lemma_digit_roundtrip(s.last(), d);
        assert(dec_digits(v) == dec_digits(digits_val(p)).push(s.last()));
        assert(p.push(s.last()) =~= s);
    }
}

/// Dropping a leading zero does not change the value.
pub proof fn lemma_digits_val_drop_zero(s: Seq<char>)
    requires
        s.len() >= 1,
        s[0] == '0',
    ensures
        digits_val(s) == digits_val(s.skip(1)),
    decreases s.len(),
{
    if s.len() == 1 {
        assert(s.drop_last() =~= Seq::<char>::empty());
        assert(s.skip(1) =~= Seq::<char>::empty());
    } else {
        let p = s.drop_last();
        lemma_digits_val_drop_zero(p);
        assert(p.skip(1) =~= s.skip(1).drop_last());
        assert(s.skip(1).last() == s.last());
        assert(digits_val(s.skip(1)) == digits_val(s.skip(1).drop_last()) * 10 + digit_val(
            s.skip(1).last(),
        ));
    }
}

/// Any digit string is its leading zeros followed by the canonical numeral
/// of its value.
pub proof fn lemma_digits_lead_zeros(s: Seq<char>)
    requires
        all_digits(s),
        s.len() >= 1,
    ensures
        dec_digits(digits_val(s)).len() <= s.len(),
        zeros((s.len() - dec_digits(digits_val(s)).len()) as nat) + dec_digits(digits_val(s))
            == s,
    decreases s.len(),
{
    if s.len() == 1 || s[0] != '0' {
        lemma_digits_canon(s);
        assert(zeros(0) + s =~= s);
    } else {
        let t = s.skip(1);
        lemma_digits_val_drop_zero(s);
        lemma_digits_lead_zeros(t);
        let dd = dec_digits(digits_val(s));
        let k = (t.len() - dd.len()) as nat;
        assert(zeros(k) + dd == t);
        assert(zeros(k + 1) + dd =~= seq!['0'] + (zeros(k) + dd));
        assert(seq!['0'] + t =~= s);
    }
}

/// Relies on `String::push`: appends one character to the string.
#[verifier::external_body]
pub fn push_char(s: &mut String, c: char)
    ensures
        final(s)@ == old(s)@.push(c),
{
    s.push(c)
}

fn digit_to_char(d: u8) -> (c: char)
    requires
        d < 10,
    ensures
        c == digit_char(d as nat),
{
    match d {
        0 => '0',
        1 => '1',
        2 => '2',
        3 => '3',
        4 => '4',
        5 => '5',
        6 => '6',
        7 => '7',
        8 => '8',
        _ => '9',
    }
}

fn char_digit(c: char) -> (r: Option<u8>)
    ensures
        match r {
            Some(d) => is_digit(c) && d < 10 && d as nat == digit_val(c),
            None => !is_digit(c),
        },
{
    match c {
        '0' => Some(0),
        '1' => Some(1),
        '2' => Some(2),
        '3' => Some(3),
        '4' => Some(4),
        '5' => Some(5),
        '6' => Some(6),
        '7' => Some(7),
        '8' => Some(8),
        '9' => Some(9),
        _ => None,
    }
}

/// Appends the canonical decimal numeral of `n`.
pub fn push_num(s: &mut String, n: u64)
    ensures
        final(s)@ == old(s)@ + dec_digits(n as nat),
    decreases n,
{
    if n < 10 {
        push_char(s, digit_to_char(n as u8));
        assert(old(s)@ + dec_digits(n as nat) =~= old(s)@.push(digit_char(n as nat)));
    } else {
        push_num(s, n / 10);
        push_char(s, digit_to_char((n % 10) as u8));
        assert(old(s)@ + dec_digits(n as nat) =~= (old(s)@ + dec_digits((n / 10) as nat)).push(
            digit_char((n % 10) as nat),
        ));
    }
}

/// Appends `n` zero characters.
pub fn push_zeros(s: &mut String, n: usize)
    ensures
        final(s)@ == old(s)@ + zeros(n as nat),
{
    let mut i: usize = 0;
    while i < n
        invariant
            i <= n,
            s@ == old(s)@ + zeros(i as nat),
        decreases n - i,
    {
        push_char(s, '0');
        assert(old(s)@ + zeros((i + 1) as nat) =~= (old(s)@ + zeros(i as nat)).push('0'));
        i = i + 1;
    }
    assert(old(s)@ + zeros(0) =~= old(s)@);
}

/// Reads the digit run `s[from..to]`; `None` if the range is empty or holds
/// a non-digit.
pub fn scan_digits(s: &str, from: usize, to: usize) -> (r: Option<u64>)
    requires
        from <= to <= s@.len(),
        to - from <= 19,
    ensures
        match r {
            Some(v) => {
                &&& to > from
                &&& all_digits(s@.subrange(from as int, to as int))
                &&& v as nat == digits_val(s@.subrange(from as int, to as int))
            },
            None => !(to > from && all_digits(s@.subrange(from as int, to as int))),
        },
{
    if to == from {
        return None;
    }
    let mut acc: u64 = 0;
    let mut i: usize = from;
    proof {
        lemma_pow10_19();
        assert(s@.subrange(from as int, from as int) =~= Seq::<char>::empty());
    }
    while i < to
        invariant
            from <= i <= to <= s@.len(),
            to - from <= 19,
            all_digits(s@.subrange(from as int, i as int)),
            acc as nat == digits_val(s@.subrange(from as int, i as int)),
            pow10(18) == 0x_de0b6b3a7640000,
            pow10(19) == 10000000000000000000,
        decreases to - i,
    {
        let c = s.get_char(i);
        match char_digit(c) {
            Some(d) => {
                proof {
                    let pre = s@.subrange(from as int, i as int);
                    lemma_digits_val_bound(pre);
                    lemma_pow10_mono(pre.len(), 18);
                    assert(s@.subrange(from as int, i + 1 as int).drop_last() =~= pre);
                }
                acc = acc * 10 + (d as u64);
            },
            None => {
                proof {
                    let whole = s@.subrange(from as int, to as int);
                    assert(whole[i - from] == c);
                }
                return None;
            },
        }
        i = i + 1;
    }
    proof {
        assert(s@.subrange(from as int, to as int) =~= s@.subrange(from as int, i as int));
    }
    Some(acc)
}

} // verus!
