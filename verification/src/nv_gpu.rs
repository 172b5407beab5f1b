//! The unit-aware metric value model and the per-device record set.
//!
//! A metric token arrives as text shaped `"<number> <unit>"`, `"<number>"`,
//! or a sentinel for data the backend did not report. Parsing keeps numbers
//! exact: integers as `i64`, numbers with a decimal point as an exact
//! decimal (sign, whole part, fraction digits). Rendering writes the digits
//! back unchanged, so parsing and rendering are inverse on canonical tokens.

use vstd::prelude::*;

use crate::digits::{
    all_digits, dec_digits, digit_val, digits_val, is_digit, lemma_dec_digits, lemma_digits_canon,
    lemma_digits_lead_zeros, lemma_digits_val_bound, lemma_pow10_19, lemma_pow10_mono,
    lemma_pow10_pos, pow10, push_char, push_num, push_zeros, scan_digits, zeros,
};
use crate::error::GMONError;

verus! {

/// An exact decimal: `(-1)^neg * (whole + frac / 10^frac_len)`.
///
/// The fraction keeps exactly the digits that were parsed, leading and
/// trailing zeros included, so rendering reproduces them.
#[derive(Debug, Clone, Copy, PartialEq, Eq, Structural)]
pub struct DecVal {
    pub neg: bool,
    pub whole: u64,
    pub frac: u64,
    pub frac_len: u32,
}

impl DecVal {
    pub open spec fn wf(self) -> bool {
        &&& 1 <= self.frac_len <= 18
        &&& (self.frac as nat) < pow10(self.frac_len as nat)
        &&& (self.whole as nat) < pow10(19)
    }
}

/// A present numeric payload, or the explicit not-available state.
#[derive(Debug, Clone, Copy, PartialEq, Eq, Structural)]
pub enum ValidValue {
    Int(i64),
    Dec(DecVal),
    Unavailable,
}

impl ValidValue {
    pub open spec fn wf(self) -> bool {
        match self {
            ValidValue::Dec(d) => d.wf(),
            _ => true,
        }
    }
}

/// A parsed, optionally unit-tagged metric reading.
///
/// Either a real number (optionally with a unit) or explicitly unavailable;
/// there is no third state, and an unavailable value carries no unit.
#[derive(Debug, Clone, PartialEq, Eq)]
pub struct Value {
    pub val: ValidValue,
    pub unit: Option<String>,
}

impl Value {
    pub open spec fn wf(self) -> bool {
        &&& self.val.wf()
        &&& self.val is Unavailable ==> self.unit is None
    }

    /// The explicit not-available reading.
    pub fn unavailable() -> (r: Value)
        ensures
            r.val is Unavailable,
            r.unit is None,
            r.wf(),
    {
        Value { val: ValidValue::Unavailable, unit: None }
    }
}

/// What a token's numeric part parses to.
pub enum ParseOut {
    /// The not-available state: empty input, a recognized sentinel, or a
    /// token shape with too many parts.
    Unavail,
    /// A number.
    Num(ValidValue),
    /// A one- or two-part token whose leading part is not numeric.
    Malformed,
}

// ---------------------------------------------------------------------------
// Token shapes, at the specification level.
// ---------------------------------------------------------------------------
/// Index of the first occurrence of `c`.
pub open spec fn spec_first_ch(s: Seq<char>, c: char) -> Option<int>
    decreases s.len(),
{
    if s.len() == 0 {
        None
    } else if s[0] == c {
        Some(0int)
    } else {
        match spec_first_ch(s.skip(1), c) {
            Some(i) => Some(i + 1),
            None => None,
        }
    }
}

pub proof fn lemma_first_ch(s: Seq<char>, c: char)
    ensures
        match spec_first_ch(s, c) {
            Some(i) => 0 <= i < s.len() && s[i] == c && (forall|j: int| 0 <= j < i ==> s[j] != c),
            None => forall|j: int| 0 <= j < s.len() ==> s[j] != c,
        },
    decreases s.len(),
{
    if s.len() > 0 && s[0] != c {
        let t = s.skip(1);
        lemma_first_ch(t, c);
        assert(forall|j: int| 0 <= j < t.len() ==> t[j] == s[j + 1]);
        match spec_first_ch(t, c) {
            Some(i) => {
                assert forall|j: int| 0 <= j < i + 1 implies s[j] != c by {
                    if j > 0 {
                        assert(t[j - 1] != c);
                    }
                }
            },
            None => {
                assert forall|j: int| 0 <= j < s.len() implies s[j] != c by {
                    if j > 0 {
                        assert(t[j - 1] != c);
                    }
                }
            },
        }
    }
}

pub proof fn lemma_first_ch_unique(s: Seq<char>, c: char, i: int)
    requires
        0 <= i < s.len(),
        s[i] == c,
        forall|j: int| 0 <= j < i ==> s[j] != c,
    ensures
        spec_first_ch(s, c) == Some(i),
    decreases s.len(),
{
    if i > 0 {
        lemma_first_ch_unique(s.skip(1), c, i - 1);
    }
}

pub proof fn lemma_first_ch_none(s: Seq<char>, c: char)
    requires
        forall|j: int| 0 <= j < s.len() ==> s[j] != c,
    ensures
        spec_first_ch(s, c) == None::<int>,
    decreases s.len(),
{
    if s.len() > 0 {
        lemma_first_ch_none(s.skip(1), c);
    }
}

/// The magnitude digits of a signed numeral: the token with its sign
/// stripped.
pub open spec fn num_body(t: Seq<char>) -> Seq<char> {
    if t.len() > 0 && t[0] == '-' {
        t.skip(1)
    } else {
        t
    }
}

pub open spec fn num_neg(t: Seq<char>) -> bool {
    t.len() > 0 && t[0] == '-'
}

/// An optional sign followed by one or more digits.
pub open spec fn int_shape(t: Seq<char>) -> bool {
    num_body(t).len() > 0 && all_digits(num_body(t))
}

/// Fits the machine: at most 19 magnitude digits, inside the `i64` range.
pub open spec fn int_fits(t: Seq<char>) -> bool {
    &&& num_body(t).len() <= 19
    &&& if num_neg(t) {
        digits_val(num_body(t)) <= 0x8000000000000000
    } else {
        digits_val(num_body(t)) <= 0x7fffffffffffffff
    }
}

pub open spec fn int_value(t: Seq<char>) -> int {
    if num_neg(t) {
        -(digits_val(num_body(t)) as int)
    } else {
        digits_val(num_body(t)) as int
    }
}

/// An optional sign, one or more digits, a point, one or more digits.
pub open spec fn dec_shape(t: Seq<char>) -> bool {
    let b = num_body(t);
    match spec_first_ch(b, '.') {
        Some(i) => {
            &&& 0 < i
            &&& i < b.len() - 1
            &&& all_digits(b.take(i))
            &&& all_digits(b.skip(i + 1))
        },
        None => false,
    }
}

pub open spec fn dec_whole(t: Seq<char>) -> Seq<char> {
    let b = num_body(t);
    b.take(spec_first_ch(b, '.') -> Some_0)
}

pub open spec fn dec_frac(t: Seq<char>) -> Seq<char> {
    let b = num_body(t);
    b.skip((spec_first_ch(b, '.') -> Some_0) + 1)
}

pub open spec fn dec_fits(t: Seq<char>) -> bool {
    dec_whole(t).len() <= 19 && dec_frac(t).len() <= 18
}

pub open spec fn dec_value(t: Seq<char>) -> DecVal {
    DecVal {
        neg: num_neg(t),
        whole: digits_val(dec_whole(t)) as u64,
        frac: digits_val(dec_frac(t)) as u64,
        frac_len: dec_frac(t).len() as u32,
    }
}

/// What the numeric part of a token parses to. The integer `-1` is the
/// backend's sentinel for "not reported" and maps to the not-available
/// state rather than surviving as a magic number.
pub open spec fn spec_parse_token(t: Seq<char>) -> ParseOut {
    if t == seq!['N', '/', 'A'] {
        ParseOut::Unavail
    } else if int_shape(t) {
        if int_fits(t) {
            if int_value(t) == -1 {
                ParseOut::Unavail
            } else {
                ParseOut::Num(ValidValue::Int(int_value(t) as i64))
            }
        } else {
            ParseOut::Malformed
        }
    } else if dec_shape(t) {
        if dec_fits(t) {
            ParseOut::Num(ValidValue::Dec(dec_value(t)))
        } else {
            ParseOut::Malformed
        }
    } else {
        ParseOut::Malformed
    }
}

/// Splits on the first space: `(numeric token, unit token, too many parts)`.
pub open spec fn spec_split(s: Seq<char>) -> (Seq<char>, Option<Seq<char>>, bool) {
    match spec_first_ch(s, ' ') {
        None => (s, None, false),
        Some(i) => {
            let rest = s.skip(i + 1);
            match spec_first_ch(rest, ' ') {
                None => (s.take(i), Some(rest), false),
                Some(_) => (s, None, true),
            }
        },
    }
}

/// The whole parse rule: empty input and three-or-more-part shapes are the
/// not-available state; one- and two-part shapes parse their leading token.
pub open spec fn spec_parse(s: Seq<char>) -> ParseOut {
    if s.len() == 0 {
        ParseOut::Unavail
    } else if spec_split(s).2 {
        ParseOut::Unavail
    } else {
        spec_parse_token(spec_split(s).0)
    }
}

/// The unit of a parsed reading: present only when a number is present and
/// the token had exactly two parts.
pub open spec fn spec_parse_unit(s: Seq<char>) -> Option<Seq<char>> {
    if spec_parse(s) is Num {
        spec_split(s).1
    } else {
        None
    }
}

// ---------------------------------------------------------------------------
// Rendering, at the specification level.
// ---------------------------------------------------------------------------
pub open spec fn int_text(i: int) -> Seq<char> {
    if i < 0 {
        seq!['-'] + dec_digits((-i) as nat)
    } else {
        dec_digits(i as nat)
    }
}

pub open spec fn dec_text(d: DecVal) -> Seq<char> {
    let fd = dec_digits(d.frac as nat);
    let pad = if fd.len() <= d.frac_len {
        (d.frac_len - fd.len()) as nat
    } else {
        0
    };
    let sign = if d.neg {
        seq!['-']
    } else {
        Seq::<char>::empty()
    };
    sign + dec_digits(d.whole as nat) + seq!['.'] + zeros(pad) + fd
}

/// The numeric text of a reading; the sentinel and the not-available state
/// both render as `N/A`.
pub open spec fn spec_render_num(v: ValidValue) -> Seq<char> {
    match v {
        ValidValue::Unavailable => seq!['N', '/', 'A'],
        ValidValue::Int(i) => if i == -1 {
            seq!['N', '/', 'A']
        } else {
            int_text(i as int)
        },
        ValidValue::Dec(d) => dec_text(d),
    }
}

pub open spec fn unit_view(u: Option<String>) -> Seq<char> {
    match u {
        Some(s) => s@,
        None => Seq::<char>::empty(),
    }
}

/// The display text: `N/A` without a unit, or the number followed
/// immediately by its unit.
pub open spec fn spec_render(v: Value) -> Seq<char> {
    if v.val is Unavailable || v.val == ValidValue::Int(-1i64) {
        seq!['N', '/', 'A']
    } else {
        spec_render_num(v.val) + unit_view(v.unit)
    }
}

/// The nearest integer, halves away from zero; used for display widths
/// only, never fed back into a stored value.
pub open spec fn spec_round(v: ValidValue) -> int {
    match v {
        ValidValue::Int(i) => i as int,
        ValidValue::Dec(d) => {
            let m = d.whole as int + if 2 * (d.frac as int) >= pow10(d.frac_len as nat) {
                1int
            } else {
                0int
            };
            if d.neg {
                -m
            } else {
                m
            }
        },
        ValidValue::Unavailable => 0,
    }
}

pub open spec fn isize_representable(v: ValidValue) -> bool {
    match v {
        ValidValue::Int(i) => isize::MIN <= i as int <= isize::MAX as int,
        ValidValue::Dec(d) => d.whole as int + 1 <= isize::MAX as int,
        ValidValue::Unavailable => false,
    }
}

// ---------------------------------------------------------------------------
// Laws of parsing and rendering.
// ---------------------------------------------------------------------------
/// A numeric token with no superfluous leading zero and no negative zero;
/// exactly the tokens that rendering produces.
pub open spec fn canon_num_text(t: Seq<char>) -> bool {
    ||| {
        &&& int_shape(t)
        &&& int_fits(t)
        &&& (num_body(t).len() > 1 ==> num_body(t)[0] != '0')
        &&& !(num_neg(t) && digits_val(num_body(t)) == 0)
    }
    ||| {
        &&& dec_shape(t)
        &&& dec_fits(t)
        &&& (dec_whole(t).len() > 1 ==> dec_whole(t)[0] != '0')
    }
}

/// Parsing a canonical `"<number> <unit>"` token and rendering the value
/// again preserves the numeric text exactly — integers and decimals alike,
/// trailing fraction zeros included. The one exception is the backend's
/// `-1` sentinel, which parses to the not-available state.
pub proof fn lemma_parse_render_roundtrip(num: Seq<char>, unit: Seq<char>)
    requires
        canon_num_text(num),
        !(int_shape(num) && int_value(num) == -1),
        unit.len() > 0,
        forall|j: int| 0 <= j < unit.len() ==> unit[j] != ' ',
    ensures
        spec_parse(num + seq![' '] + unit) is Num,
        spec_render_num(spec_parse(num + seq![' '] + unit) -> Num_0) == num,
        spec_parse_unit(num + seq![' '] + unit) == Some(unit),
{
    let s = num + seq![' '] + unit;
    let b = num_body(num);
    // No space can occur inside the numeric token.
    assert forall|j: int| 0 <= j < num.len() implies num[j] != ' ' by {
        if num_neg(num) && j == 0 {
        } else {
            let k = if num_neg(num) {
                j - 1
            } else {
                j
            };
            assert(b[k] == num[j]);
            if int_shape(num) {
                assert(is_digit(b[k]));
            } else {
                let i = spec_first_ch(b, '.') -> Some_0;
                if k < i {
                    assert(dec_whole(num)[k] == b[k]);
                    assert(is_digit(b[k]));
                } else if k == i {
                    lemma_first_ch(b, '.');
                } else {
                    assert(dec_frac(num)[k - i - 1] == b[k]);
                    assert(is_digit(b[k]));
                }
            }
        }
    }
    assert(s[num.len() as int] == ' ');
    lemma_first_ch_unique(s, ' ', num.len() as int);
    let rest = s.skip(num.len() as int + 1);
    assert(rest =~= unit);
    lemma_first_ch_none(rest, ' ');
    assert(s.take(num.len() as int) =~= num);
    assert(spec_first_ch(s, ' ') == Some(num.len() as int));
    assert(rest == unit);
    assert(spec_split(s).0 == num);
    assert(spec_split(s).1 == Some(unit));
    assert(!spec_split(s).2);
    assert(spec_parse(s) == spec_parse_token(num));
    // The token is not the N/A sentinel: its first character is a sign or
    // a digit.
    assert(num != seq!['N', '/', 'A']) by {
        if num == seq!['N', '/', 'A'] {
            if num_neg(num) {
                assert(num[0] == '-');
            } else {
                assert(b[0] == num[0]);
                if int_shape(num) {
                    assert(is_digit(num[0]));
                } else {
                    assert(dec_whole(num)[0] == b[0]);
                    assert(is_digit(num[0]));
                }
            }
        }
    }
    if int_shape(num) {
        let v = int_value(num);
        assert(!dec_shape(num)) by {
            if dec_shape(num) {
                let i = spec_first_ch(b, '.') -> Some_0;
                lemma_first_ch(b, '.');
                assert(is_digit(b[i]));
            }
        }
        assert(int_fits(num));
        assert(spec_parse(s) == ParseOut::Num(ValidValue::Int(v as i64)));
        lemma_digits_canon(b);
        if num_neg(num) {
            assert(digits_val(b) > 0);
            assert(v < 0);
            assert(int_text(v as i64 as int) =~= seq!['-'] + dec_digits(digits_val(b)));
            assert(seq!['-'] + b =~= num);
        } else {
            assert(int_text(v as i64 as int) == dec_digits(digits_val(b)));
        }
    } else {
        assert(!int_shape(num));
        let d = dec_value(num);
        assert(spec_parse(s) == ParseOut::Num(ValidValue::Dec(d)));
        let wseq = dec_whole(num);
        let fseq = dec_frac(num);
        lemma_digits_canon(wseq);
        lemma_digits_lead_zeros(fseq);
        lemma_digits_val_bound(wseq);
        lemma_digits_val_bound(fseq);
        lemma_pow10_mono(wseq.len(), 19);
        lemma_pow10_mono(fseq.len(), 18);
        lemma_pow10_19();
        assert(d.whole as nat == digits_val(wseq));
        assert(d.frac as nat == digits_val(fseq));
        assert(d.frac_len as nat == fseq.len());
        let fd = dec_digits(d.frac as nat);
        assert(zeros((fseq.len() - fd.len()) as nat) + fd == fseq);
        let sign = if d.neg {
            seq!['-']
        } else {
            Seq::<char>::empty()
        };
        assert(dec_text(d) =~= sign + wseq + seq!['.'] + (zeros((fseq.len() - fd.len()) as nat)
            + fd));
        let i = spec_first_ch(num_body(num), '.') -> Some_0;
        lemma_first_ch(num_body(num), '.');
        assert(sign + wseq + seq!['.'] + fseq =~= num);
        assert(spec_render_num(ValidValue::Dec(d)) == num);
    }
}

/// The `-1` sentinel parses to the not-available state, and the
/// not-available state always renders as `N/A`.
pub proof fn lemma_sentinel_unavailable()
    ensures
        spec_parse(seq!['-', '1']) is Unavail,
        forall|v: Value| v.val is Unavailable ==> spec_render(v) == seq!['N', '/', 'A'],
{
    let s = seq!['-', '1'];
    assert(s.skip(1) =~= seq!['1']);
    assert(seq!['1'].skip(1) =~= Seq::<char>::empty());
    assert(spec_first_ch(Seq::<char>::empty(), ' ') == None::<int>);
    assert(spec_first_ch(seq!['1'], ' ') == None::<int>);
    assert(spec_first_ch(s, ' ') == None::<int>);
    assert(num_body(s) =~= seq!['1']);
    assert(s != seq!['N', '/', 'A']);
    assert(int_shape(s));
    assert(digits_val(seq!['1']) == 1) by {
        reveal_with_fuel(digits_val, 2);
        assert(seq!['1'].drop_last() =~= Seq::<char>::empty());
    }
    assert(int_value(s) == -1);
}

/// Three or more space-separated parts always parse to the not-available
/// state — never to a silent zero.
pub proof fn lemma_many_parts_unavailable(s: Seq<char>, i: int, k: int)
    requires
        0 <= i < k < s.len(),
        s[i] == ' ',
        s[k] == ' ',
    ensures
        spec_parse(s) is Unavail,
{
    lemma_first_ch(s, ' ');
    match spec_first_ch(s, ' ') {
        Some(fi) => {
            assert(fi <= i);
            let rest = s.skip(fi + 1);
            assert(rest[k - fi - 1] == s[k]);
            lemma_first_ch(rest, ' ');
            assert(spec_first_ch(rest, ' ') is Some);
            assert(spec_split(s).2);
        },
        None => {
            assert(s[i] != ' ');
        },
    }
}

/// A one- or two-part shape whose leading token is not numeric (and not the
/// `N/A` sentinel) is reported malformed — never coerced to a number.
pub proof fn lemma_nonnumeric_malformed(s: Seq<char>)
    requires
        s.len() > 0,
        !spec_split(s).2,
        spec_split(s).0 != seq!['N', '/', 'A'],
        !int_shape(spec_split(s).0),
        !dec_shape(spec_split(s).0),
    ensures
        spec_parse(s) is Malformed,
{
}

// ---------------------------------------------------------------------------
// Executable parsing.
// ---------------------------------------------------------------------------
/// First occurrence of `c` in `s[from..to]`.
pub(crate) fn find_char(s: &str, from: usize, to: usize, c: char) -> (r: Option<usize>)
    requires
        from <= to <= s@.len(),
    ensures
        match r {
            Some(i) => from <= i < to && s@[i as int] == c && (forall|j: int|
                from <= j < i ==> s@[j] != c),
            None => forall|j: int| from <= j < to ==> s@[j] != c,
        },
{
    let mut i: usize = from;
    while i < to
        invariant
            from <= i <= to <= s@.len(),
            forall|j: int| from <= j < i ==> s@[j] != c,
        decreases to - i,
    {
        if s.get_char(i) == c {
            return Some(i);
        }
        i = i + 1;
    }
    None
}

/// Parses the numeric part of a token, attaching `unit` to a present value.
fn parse_token(tok: &str, unit: Option<String>) -> (r: Result<Value, GMONError>)
    ensures
        match spec_parse_token(tok@) {
            ParseOut::Malformed => r == Err::<Value, GMONError>(GMONError::MalformedValue),
            ParseOut::Unavail => (r matches Ok(v) && v.val is Unavailable && v.unit is None
                && v.wf()),
            ParseOut::Num(val) => (r matches Ok(v) && v.val == val && v.unit == unit && v.wf()),
        },
{
    let n = tok.unicode_len();
    if n == 3 {
        if tok.get_char(0) == 'N' && tok.get_char(1) == '/' && tok.get_char(2) == 'A' {
            proof {
                assert(tok@ =~= seq!['N', '/', 'A']);
            }
            return Ok(Value::unavailable());
        }
    }
    proof {
        assert(tok@ != seq!['N', '/', 'A']);
    }
    if n == 0 {
        return Err(GMONError::MalformedValue);
    }
    let neg = tok.get_char(0) == '-';
    let b0: usize = if neg {
        1
    } else {
        0
    };
    let ghost b = num_body(tok@);
    proof {
        assert(b =~= tok@.subrange(b0 as int, n as int));
    }
    match find_char(tok, b0, n, '.') {
        None => {
            proof {
                assert forall|j: int| 0 <= j < b.len() implies b[j] != '.' by {
                    assert(b[j] == tok@[b0 + j]);
                }
                lemma_first_ch_none(b, '.');
            }
            if n - b0 > 19 {
                return Err(GMONError::MalformedValue);
            }
            match scan_digits(tok, b0, n) {
                None => Err(GMONError::MalformedValue),
                Some(v) => {
                    proof {
                        lemma_digits_val_bound(b);
                        lemma_pow10_mono(b.len(), 19);
                        lemma_pow10_19();
                    }
                    if neg {
                        if v > 0x8000000000000000u64 {
                            Err(GMONError::MalformedValue)
                        } else if v == 1 {
                            Ok(Value::unavailable())
                        } else {
                            let iv: i64 = if v == 0x8000000000000000u64 {
                                i64::MIN
                            } else {
                                -(v as i64)
                            };
                            Ok(Value { val: ValidValue::Int(iv), unit })
                        }
                    } else {
                        if v > 0x7fffffffffffffffu64 {
                            Err(GMONError::MalformedValue)
                        } else {
                            Ok(Value { val: ValidValue::Int(v as i64), unit })
                        }
                    }
                },
            }
        },
        Some(di) => {
            proof {
                assert(b[di - b0] == tok@[di as int]);
                assert(!is_digit('.'));
                assert(!all_digits(b));
                assert forall|j: int| 0 <= j < di - b0 implies b[j] != '.' by {
                    assert(b[j] == tok@[b0 + j]);
                }
                lemma_first_ch_unique(b, '.', di - b0);
            }
            if di == b0 || di + 1 == n {
                return Err(GMONError::MalformedValue);
            }
            if di - b0 > 19 || n - (di + 1) > 18 {
                return Err(GMONError::MalformedValue);
            }
            let ghost wseq = b.take(di - b0);
            let ghost fseq = b.skip(di - b0 + 1);
            proof {
                assert(wseq =~= tok@.subrange(b0 as int, di as int));
                assert(fseq =~= tok@.subrange(di + 1 as int, n as int));
            }
            match scan_digits(tok, b0, di) {
                None => Err(GMONError::MalformedValue),
                Some(w) => {
                    match scan_digits(tok, di + 1, n) {
                        None => Err(GMONError::MalformedValue),
                        Some(f) => {
                            proof {
                                lemma_digits_val_bound(wseq);
                                lemma_digits_val_bound(fseq);
                                lemma_pow10_mono(wseq.len(), 19);
                            }
                            let d = DecVal {
                                neg,
                                whole: w,
                                frac: f,
                                frac_len: (n - di - 1) as u32,
                            };
                            Ok(Value { val: ValidValue::Dec(d), unit })
                        },
                    }
                },
            }
        },
    }
}

impl Value {
    /// Parses one backend token. Empty input, the `N/A` sentinel, the `-1`
    /// sentinel, and shapes of three or more space-separated parts give the
    /// not-available state; a one- or two-part shape whose leading part is
    /// not numeric (or does not fit the machine range) is malformed.
    pub fn parse(s: &str) -> (r: Result<Value, GMONError>)
        ensures
            match spec_parse(s@) {
                ParseOut::Malformed => r == Err::<Value, GMONError>(GMONError::MalformedValue),
                ParseOut::Unavail => (r matches Ok(v) && v.val is Unavailable && v.unit is None
                    && v.wf()),
                ParseOut::Num(val) => (r matches Ok(v) && v.val == val && v.wf() && match (
                    v.unit,
                    spec_parse_unit(s@),
                ) {
                    (Some(us), Some(uq)) => us@ == uq,
                    (None, None) => true,
                    _ => false,
                }),
            },
    {
        let n = s.unicode_len();
        if n == 0 {
            return Ok(Value::unavailable());
        }
        match find_char(s, 0, n, ' ') {
            None => {
                proof {
                    lemma_first_ch_none(s@, ' ');
                }
                parse_token(s, None)
            },
            Some(i) => {
                proof {
                    lemma_first_ch_unique(s@, ' ', i as int);
                }
                let ghost rest = s@.skip(i + 1);
                match find_char(s, i + 1, n, ' ') {
                    Some(k) => {
                        proof {
                            assert(rest[k - (i + 1)] == s@[k as int]);
                            assert forall|j: int| 0 <= j < k - (i + 1) implies rest[j] != ' ' by {
                                assert(rest[j] == s@[i + 1 + j]);
                            }
                            lemma_first_ch_unique(rest, ' ', k - (i + 1));
                        }
                        Ok(Value::unavailable())
                    },
                    None => {
                        proof {
                            assert forall|j: int| 0 <= j < rest.len() implies rest[j] != ' ' by {
                                assert(rest[j] == s@[i + 1 + j]);
                            }
                            lemma_first_ch_none(rest, ' ');
                        }
                        let tok = s.substring_char(0, i);
                        let unit = s.substring_char(i + 1, n).to_owned();
                        proof {
                            assert(tok@ =~= s@.take(i as int));
                            assert(unit@ =~= rest);
                        }
                        parse_token(tok, Some(unit))
                    },
                }
            },
        }
    }
}

// ---------------------------------------------------------------------------
// Executable rendering.
// ---------------------------------------------------------------------------
fn pow10_u64(n: u32) -> (r: u64)
    requires
        n <= 19,
    ensures
        r as nat == pow10(n as nat),
    decreases n,
{
    proof {
        lemma_pow10_19();
        lemma_pow10_mono(n as nat, 19);
        if n > 0 {
            lemma_pow10_mono((n - 1) as nat, 19);
        }
    }
    if n == 0 {
        1
    } else {
        let p = pow10_u64(n - 1);
        proof {
            lemma_pow10_19();
            lemma_pow10_mono(n as nat, 19);
        }
        10 * p
    }
}

fn num_digit_count(n: u64) -> (c: usize)
    ensures
        c == dec_digits(n as nat).len(),
        1 <= c <= 20,
    decreases n,
{
    proof {
        lemma_dec_digits(n as nat);
        lemma_pow10_19();
        if n >= 1 && dec_digits(n as nat).len() > 20 {
            crate::digits::lemma_digits_val_lower(dec_digits(n as nat));
            lemma_pow10_mono(20, (dec_digits(n as nat).len() - 1) as nat);
            assert(pow10(20) == 10 * pow10(19));
        }
    }
    if n < 10 {
        1
    } else {
        1 + num_digit_count(n / 10)
    }
}

impl Value {
    /// The display text of this reading: `N/A` when unavailable or equal to
    /// the backend's "not reported" sentinel, else the exact digits followed
    /// by the unit, if any.
    pub fn render(&self) -> (r: String)
        requires
            self.wf(),
        ensures
            r@ == spec_render(*self),
    {
        proof {
            reveal_strlit("N/A");
            assert("N/A"@ =~= seq!['N', '/', 'A']);
        }
        match &self.val {
            ValidValue::Unavailable => "N/A".to_owned(),
            ValidValue::Int(i) => {
                if *i == -1 {
                    return "N/A".to_owned();
                }
                let mut out = String::new();
                let i = *i;
                let mag: u64 = if i < 0 {
                    proof {
                        assert(-(i as int) <= 0x8000000000000000);
                    }
                    (-(i as i128)) as u64
                } else {
                    i as u64
                };
                if i < 0 {
                    push_char(&mut out, '-');
                }
                push_num(&mut out, mag);
                proof {
                    if i < 0 {
                        assert(Seq::<char>::empty().push('-') + dec_digits(mag as nat) =~= seq![
                            '-',
                        ] + dec_digits(mag as nat));
                    }
                }
                match &self.unit {
                    Some(u) => {
                        out.append(u.as_str());
                    },
                    None => {
                        proof {
                            assert(out@ + unit_view(self.unit) =~= out@);
                        }
                    },
                }
                out
            },
            ValidValue::Dec(d) => {
                let mut out = String::new();
                if d.neg {
                    push_char(&mut out, '-');
                    proof {
                        assert(Seq::<char>::empty().push('-') =~= seq!['-']);
                    }
                }
                push_num(&mut out, d.whole);
                push_char(&mut out, '.');
                let fd_len = num_digit_count(d.frac);
                proof {
                    lemma_dec_digits(d.frac as nat);
                    if dec_digits(d.frac as nat).len() > d.frac_len {
                        lemma_pow10_mono((d.frac_len + 1) as nat, dec_digits(d.frac as nat).len());
                        crate::digits::lemma_digits_val_lower(dec_digits(d.frac as nat));
                    }
                }
                let pad = if fd_len <= d.frac_len as usize {
                    d.frac_len as usize - fd_len
                } else {
                    0
                };
                push_zeros(&mut out, pad);
                push_num(&mut out, d.frac);
                match &self.unit {
                    Some(u) => {
                        out.append(u.as_str());
                    },
                    None => {},
                }
                proof {
                    let sign = if d.neg {
                        seq!['-']
                    } else {
                        Seq::<char>::empty()
                    };
                    let fd = dec_digits(d.frac as nat);
                    assert(out@ =~= sign + dec_digits(d.whole as nat) + seq!['.'] + zeros(
                        pad as nat,
                    ) + fd + unit_view(self.unit));
                    assert(spec_render(*self) =~= out@);
                }
                out
            },
        }
    }

    /// The reading rounded to the nearest integer (halves away from zero),
    /// for display-width computation; the stored value keeps its precision.
    pub fn val_as_isize(&self) -> (r: isize)
        requires
            self.wf(),
            isize_representable(self.val),
        ensures
            r as int == spec_round(self.val),
    {
        match &self.val {
            ValidValue::Int(i) => *i as isize,
            ValidValue::Dec(d) => {
                let t = pow10_u64(d.frac_len);
                proof {
                    lemma_pow10_mono(d.frac_len as nat, 18);
                    lemma_pow10_19();
                }
                let m: u64 = if 2 * d.frac >= t {
                    d.whole + 1
                } else {
                    d.whole
                };
                if d.neg {
                    -(m as isize)
                } else {
                    m as isize
                }
            },
            ValidValue::Unavailable => 0,
        }
    }
}

// ---------------------------------------------------------------------------
// The per-device record set, one instant per refresh.
// ---------------------------------------------------------------------------
/// One process' use of one device, as the backend reports it.
#[derive(Debug, Clone, PartialEq, Eq)]
pub struct ProcessInfo {
    pub gpu_instance_id: String,
    pub compute_instance_id: String,
    pub pid: u32,
    pub p_type: String,
    pub name: String,
    pub used_memory: Value,
}

impl ProcessInfo {
    pub open spec fn wf(self) -> bool {
        self.used_memory.wf()
    }
}

#[derive(Debug, Clone, PartialEq, Eq)]
pub struct Processes {
    pub items: Option<Vec<ProcessInfo>>,
}

impl Processes {
    pub open spec fn wf(self) -> bool {
        match self.items {
            Some(v) => forall|i: int| 0 <= i < v@.len() ==> (#[trigger] v@[i]).wf(),
            None => true,
        }
    }
}

#[derive(Debug, Clone, PartialEq, Eq)]
pub struct Clock {
    pub graphics: Value,
    pub sm: Option<Value>,
    pub mem: Option<Value>,
    pub video: Option<Value>,
}

impl Clock {
    pub open spec fn wf(self) -> bool {
        &&& self.graphics.wf()
        &&& (self.sm matches Some(v) ==> v.wf())
        &&& (self.mem matches Some(v) ==> v.wf())
        &&& (self.video matches Some(v) ==> v.wf())
    }
}

#[derive(Debug, Clone, PartialEq, Eq)]
pub struct PowerInfo {
    pub state: String,
    pub management: String,
    pub draw: Value,
    pub limit: Value,
    pub default_limit: Value,
    pub enforced_limit: Value,
    pub min_limit: Value,
    pub max_limit: Value,
}

impl PowerInfo {
    pub open spec fn wf(self) -> bool {
        &&& self.draw.wf()
        &&& self.limit.wf()
        &&& self.default_limit.wf()
        &&& self.enforced_limit.wf()
        &&& self.min_limit.wf()
        &&& self.max_limit.wf()
    }
}

#[derive(Debug, Clone, PartialEq, Eq)]
pub struct Temperature {
    pub value: Value,
    pub max_threshold: Value,
    pub slow_threshold: Value,
    pub max_gpu_threshold: Value,
    pub target_temperature: Value,
    pub memory_temp: Value,
    pub max_mem_threshold: Value,
}

impl Temperature {
    pub open spec fn wf(self) -> bool {
        &&& self.value.wf()
        &&& self.max_threshold.wf()
        &&& self.slow_threshold.wf()
        &&& self.max_gpu_threshold.wf()
        &&& self.target_temperature.wf()
        &&& self.memory_temp.wf()
        &&& self.max_mem_threshold.wf()
    }
}

#[derive(Debug, Clone, PartialEq, Eq)]
pub struct Utilization {
    pub gpu: Value,
    pub memory: Value,
    pub encoder: Value,
    pub decoder: Value,
}

impl Utilization {
    pub open spec fn wf(self) -> bool {
        &&& self.gpu.wf()
        &&& self.memory.wf()
        &&& self.encoder.wf()
        &&& self.decoder.wf()
    }
}

/// Total, used and free memory. `used <= total` is expected of a sane
/// backend whenever both are present, but a violation is a data-quality
/// condition: it is carried through, never a crash.
#[derive(Debug, Clone, PartialEq, Eq)]
pub struct MemUsage {
    pub total: Value,
    pub used: Value,
    pub free: Value,
}

impl MemUsage {
    pub open spec fn wf(self) -> bool {
        &&& self.total.wf()
        &&& self.used.wf()
        &&& self.free.wf()
    }
}

#[derive(Debug, Clone, PartialEq, Eq)]
pub struct PCI {
    pub pci_bus: String,
    pub pci_device: String,
    pub pci_domain: String,
    pub pci_device_id: String,
    pub pci_bus_id: String,
    pub pci_sub_system_id: String,
    pub replay_counter: u8,
    pub replay_rollover_counter: u8,
    pub tx_util: String,
    pub rx_util: String,
}

/// One accelerator at one instant; rebuilt wholesale every refresh, never
/// mutated in place.
#[derive(Debug, Clone, PartialEq, Eq)]
pub struct GPU {
    pub id: String,
    pub product_name: String,
    pub uuid: String,
    pub fan_speed: String,
    pub fb_memory_usage: MemUsage,
    pub bar1_memory_usage: MemUsage,
    pub compute_mode: String,
    pub utilization: Utilization,
    pub temperature: Temperature,
    pub power_readings: PowerInfo,
    pub clocks: Clock,
    pub processes: Processes,
}

impl GPU {
    pub open spec fn wf(self) -> bool {
        &&& self.fb_memory_usage.wf()
        &&& self.bar1_memory_usage.wf()
        &&& self.utilization.wf()
        &&& self.temperature.wf()
        &&& self.power_readings.wf()
        &&& self.clocks.wf()
        &&& self.processes.wf()
    }
}

/// The whole backend report: identity of the driver plus one record per
/// attached device.
#[derive(Debug, Clone, PartialEq, Eq)]
pub struct GPUInfo {
    pub timestamp: String,
    pub driver_version: String,
    pub cuda_version: String,
    pub attached_gpus: u8,
    pub gpus: Vec<GPU>,
}

impl GPUInfo {
    pub open spec fn wf(self) -> bool {
        forall|i: int| 0 <= i < self.gpus@.len() ==> (#[trigger] self.gpus@[i]).wf()
    }
}

} // verus!
