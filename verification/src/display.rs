//! Table-cell formatting: fixed-width padding, rounded cell text, and the
//! per-device row layout. Everything here produces plain text with exact
//! contracts; colors and the terminal itself belong to the presentation
//! layer outside the core.

use vstd::prelude::*;

use crate::digits::push_num;
use crate::nv_gpu::{
    int_text, isize_representable, spec_round, unit_view, GPUInfo, ValidValue, Value, GPU,
};

verus! {

#[derive(Debug, Clone, Copy, PartialEq, Eq, Structural)]
pub enum Pad {
    Left,
    Right,
}

/// The color classes the table uses; the presentation layer maps them to
/// real styles.
#[derive(Debug, Clone, Copy, PartialEq, Eq, Structural)]
pub enum StyleClass {
    Plain,
    Red,
    Yellow,
    Green,
    Blue,
}

/// Display configuration: whether styling is on, and the fill character.
#[derive(Debug, Clone, Copy, PartialEq, Eq, Structural)]
pub struct DF {
    pub is_support_color: bool,
    pub pad_fill: char,
}

pub open spec fn fill_seq(n: nat, c: char) -> Seq<char> {
    Seq::new(n, |i: int| c)
}

/// A table cell's text: the reading rounded to the nearest integer, with
/// the unavailable state and the backend's `-1` sentinel both as `N/A`.
pub open spec fn spec_cell_text(v: Value) -> Seq<char> {
    if v.val is Unavailable || v.val == ValidValue::Int(-1i64) {
        seq!['N', '/', 'A']
    } else {
        int_text(spec_round(v.val))
    }
}

/// A cell that executable formatting can produce: well-formed, and inside
/// the machine's rounding range when it shows a number.
pub open spec fn cell_ok(v: Value) -> bool {
    &&& v.wf()
    &&& !(v.val is Unavailable || v.val == ValidValue::Int(-1i64)) ==> isize_representable(v.val)
}

/// One padded cell: prefix, rounded value text, then the suffix (the
/// value's own unit when none is given), filled to `width` on the chosen
/// side. A body already that wide is kept whole.
pub open spec fn spec_padding(
    df: DF,
    v: Value,
    prefix: Seq<char>,
    suffix: Option<Seq<char>>,
    width: nat,
    pad: Pad,
    fill: Option<char>,
) -> Seq<char> {
    let sfx = match suffix {
        Some(s) => s,
        None => unit_view(v.unit),
    };
    let body = prefix + spec_cell_text(v) + sfx;
    let c = match fill {
        Some(c) => c,
        None => df.pad_fill,
    };
    if body.len() >= width {
        body
    } else {
        match pad {
            Pad::Left => fill_seq((width - body.len()) as nat, c) + body,
            Pad::Right => body + fill_seq((width - body.len()) as nat, c),
        }
    }
}

fn push_fill(s: &mut String, n: usize, c: char)
    ensures
        final(s)@ == old(s)@ + fill_seq(n as nat, c),
{
    let mut i: usize = 0;
    while i < n
        invariant
            i <= n,
            s@ == old(s)@ + fill_seq(i as nat, c),
        decreases n - i,
    {
        crate::digits::push_char(s, c);
        proof {
            assert(old(s)@ + fill_seq((i + 1) as nat, c) =~= (old(s)@ + fill_seq(i as nat, c)).push(
                c,
            ));
        }
        i = i + 1;
    }
    proof {
        assert(old(s)@ + fill_seq(0, c) =~= old(s)@);
    }
}

/// Appends the rounded cell text of a reading.
fn push_cell_text(out: &mut String, v: &Value)
    requires
        cell_ok(*v),
    ensures
        final(out)@ == old(out)@ + spec_cell_text(*v),
{
    proof {
        reveal_strlit("N/A");
        assert("N/A"@ =~= seq!['N', '/', 'A']);
    }
    let na = match &v.val {
        ValidValue::Unavailable => true,
        ValidValue::Int(i) => *i == -1,
        ValidValue::Dec(_) => false,
    };
    if na {
        out.append("N/A");
        return ;
    }
    let r = v.val_as_isize();
    if r < 0 {
        crate::digits::push_char(out, '-');
        let mag: u64 = (-(r as i128)) as u64;
        push_num(out, mag);
        proof {
            assert(old(out)@ + (seq!['-'] + crate::digits::dec_digits(mag as nat)) =~= (old(
                out,
            )@.push('-')) + crate::digits::dec_digits(mag as nat));
        }
    } else {
        push_num(out, r as u64);
    }
}

impl DF {
    /// Built from a probe the presentation layer runs: whether the output
    /// stream takes color.
    pub fn new(is_support_color: bool) -> (r: DF)
        ensures
            r.is_support_color == is_support_color,
            r.pad_fill == ' ',
    {
        DF { is_support_color, pad_fill: ' ' }
    }

    /// The style to use: the requested one when color is supported, plain
    /// otherwise.
    pub fn try_style(&self, style: StyleClass) -> (r: StyleClass)
        ensures
            r == if self.is_support_color {
                style
            } else {
                StyleClass::Plain
            },
    {
        if self.is_support_color {
            style
        } else {
            StyleClass::Plain
        }
    }

    /// One padded table cell; see [`spec_padding`].
    pub fn padding(
        &self,
        val: &Value,
        prefix: &str,
        suffix: Option<&str>,
        width: usize,
        pad: Pad,
        fill: Option<char>,
    ) -> (r: String)
        requires
            cell_ok(*val),
        ensures
            r@ == spec_padding(
                *self,
                *val,
                prefix@,
                match suffix {
                    Some(s) => Some(s@),
                    None => None,
                },
                width as nat,
                pad,
                fill,
            ),
    {
        let mut body = String::new();
        body.append(prefix);
        push_cell_text(&mut body, val);
        match suffix {
            Some(s) => body.append(s),
            None => {
                match &val.unit {
                    Some(u) => body.append(u.as_str()),
                    None => {
                        proof {
                            assert(body@ + unit_view(val.unit) =~= body@);
                        }
                    },
                }
            },
        }
        let blen = body.as_str().unicode_len();
        let c = match fill {
            Some(c) => c,
            None => self.pad_fill,
        };
        if blen >= width {
            body
        } else {
            match pad {
                Pad::Left => {
                    let mut out = String::new();
                    push_fill(&mut out, width - blen, c);
                    out.append(body.as_str());
                    proof {
                        assert(Seq::<char>::empty() + fill_seq((width - blen) as nat, c) =~= fill_seq(
                            (width - blen) as nat,
                            c,
                        ));
                    }
                    out
                },
                Pad::Right => {
                    push_fill(&mut body, width - blen, c);
                    body
                },
            }
        }
    }
}

/// Pads free text to a width, keeping wider text whole.
pub fn padding(text: String, pad: Pad, pad_size: usize, fill: Option<char>) -> (r: String)
    ensures
        ({
            let c = match fill {
                Some(c) => c,
                None => ' ',
            };
            if text@.len() >= pad_size {
                r@ == text@
            } else {
                match pad {
                    Pad::Left => r@ == fill_seq((pad_size - text@.len()) as nat, c) + text@,
                    Pad::Right => r@ == text@ + fill_seq((pad_size - text@.len()) as nat, c),
                }
            }
        }),
{
    let c = match fill {
        Some(c) => c,
        None => ' ',
    };
    let n = text.as_str().unicode_len();
    if n >= pad_size {
        text
    } else {
        match pad {
            Pad::Left => {
                let mut out = String::new();
                push_fill(&mut out, pad_size - n, c);
                out.append(text.as_str());
                proof {
                    assert(Seq::<char>::empty() + fill_seq((pad_size - n) as nat, c) =~= fill_seq(
                        (pad_size - n) as nat,
                        c,
                    ));
                }
                out
            },
            Pad::Right => {
                let mut out = text;
                push_fill(&mut out, pad_size - n, c);
                out
            },
        }
    }
}

/// The color class of a temperature reading.
pub open spec fn spec_temp_style(read: int) -> StyleClass {
    if read > 75 {
        StyleClass::Red
    } else if read > 50 {
        StyleClass::Yellow
    } else if read > 30 {
        StyleClass::Green
    } else {
        StyleClass::Blue
    }
}

pub fn temp_style(read: isize) -> (r: StyleClass)
    ensures
        r == spec_temp_style(read as int),
{
    if read > 75 {
        StyleClass::Red
    } else if read > 50 {
        StyleClass::Yellow
    } else if read > 30 {
        StyleClass::Green
    } else {
        StyleClass::Blue
    }
}

/// The width of the two fixed header columns together.
pub const HEADER_COLS: usize = 38;

/// The header line: timestamp text left, version text right, the space
/// between filled to the terminal width.
pub fn format_header(left: &str, right: &str, width: usize) -> (r: String)
    ensures
        r@ == left@ + fill_seq(
            if width >= HEADER_COLS {
                (width - HEADER_COLS) as nat
            } else {
                0
            },
            ' ',
        ) + right@,
{
    let mut out = String::new();
    out.append(left);
    let padn: usize = if width >= HEADER_COLS {
        width - HEADER_COLS
    } else {
        0
    };
    push_fill(&mut out, padn, ' ');
    out.append(right);
    proof {
        assert((Seq::<char>::empty() + left@ + fill_seq(padn as nat, ' ')) + right@ =~= left@
            + fill_seq(padn as nat, ' ') + right@);
    }
    out
}

/// The cell width used for both memory columns: as wide as the first
/// device's total-memory numeral, or four columns when that is not an
/// integer reading.
pub open spec fn spec_mem_width(info: GPUInfo) -> nat {
    if info.gpus@.len() > 0 {
        match info.gpus@[0].fb_memory_usage.total.val {
            ValidValue::Int(v) => int_text(v as int).len(),
            _ => 4,
        }
    } else {
        4
    }
}

pub fn mem_str_width(info: &GPUInfo) -> (r: usize)
    ensures
        r as nat == spec_mem_width(*info),
{
    if info.gpus.len() > 0 {
        let g = &info.gpus[0];
        match &g.fb_memory_usage.total.val {
            ValidValue::Int(v) => {
                let mut t = String::new();
                let v = *v;
                if v < 0 {
                    crate::digits::push_char(&mut t, '-');
                    let mag: u64 = (-(v as i128)) as u64;
                    push_num(&mut t, mag);
                    proof {
                        assert(Seq::<char>::empty().push('-') + crate::digits::dec_digits(
                            mag as nat,
                        ) =~= int_text(v as int));
                    }
                } else {
                    push_num(&mut t, v as u64);
                    proof {
                        assert(Seq::<char>::empty() + crate::digits::dec_digits(v as nat)
                            =~= int_text(v as int));
                    }
                }
                t.as_str().unicode_len()
            },
            _ => 4,
        }
    } else {
        4
    }
}

/// One device's table row, plain text: index, name, temperature, power
/// draw (with the limit beside it only when it differs from the default),
/// utilization, used and total memory.
pub open spec fn spec_gpu_row(df: DF, g: GPU, index: nat, mem_w: nat) -> Seq<char> {
    let temp = spec_padding(
        df,
        g.temperature.value,
        Seq::<char>::empty(),
        Some(seq!['\u{b0}', 'C']),
        3,
        Pad::Left,
        None,
    );
    let draw = spec_padding(
        df,
        g.power_readings.draw,
        Seq::<char>::empty(),
        Some(Seq::<char>::empty()),
        3,
        Pad::Left,
        None,
    );
    let limit_part = if g.power_readings.limit.val == g.power_readings.default_limit.val {
        Seq::<char>::empty()
    } else {
        spec_padding(
            df,
            g.power_readings.limit,
            Seq::<char>::empty(),
            Some(Seq::<char>::empty()),
            3,
            Pad::Left,
            None,
        )
    };
    let usage = spec_padding(
        df,
        g.utilization.gpu,
        Seq::<char>::empty(),
        Some(Seq::<char>::empty()),
        3,
        Pad::Left,
        None,
    );
    let used = spec_padding(
        df,
        g.fb_memory_usage.used,
        Seq::<char>::empty(),
        Some(Seq::<char>::empty()),
        mem_w,
        Pad::Left,
        None,
    );
    let total = spec_padding(
        df,
        g.fb_memory_usage.total,
        Seq::<char>::empty(),
        Some(Seq::<char>::empty()),
        mem_w,
        Pad::Left,
        None,
    );
    int_text(index as int) + seq![' '] + g.product_name@ + seq![' '] + temp + seq![' '] + draw
        + limit_part + seq!['W', ' '] + usage + seq!['%', ' '] + used + seq!['/'] + total + seq![
        'M',
        'B',
    ]
}

/// Composes one device's row; see [`spec_gpu_row`].
#[verifier::rlimit(80)]
pub fn format_gpu_row(df: &DF, g: &GPU, index: usize, mem_w: usize) -> (r: String)
    requires
        cell_ok(g.temperature.value),
        cell_ok(g.power_readings.draw),
        cell_ok(g.power_readings.limit),
        cell_ok(g.utilization.gpu),
        cell_ok(g.fb_memory_usage.used),
        cell_ok(g.fb_memory_usage.total),
    ensures
        r@ == spec_gpu_row(*df, *g, index as nat, mem_w as nat),
{
    let mut out = String::new();
    push_num(&mut out, index as u64);
    crate::digits::push_char(&mut out, ' ');
    out.append(g.product_name.as_str());
    crate::digits::push_char(&mut out, ' ');
    let temp = df.padding(&g.temperature.value, "", Some("\u{b0}C"), 3, Pad::Left, None);
    out.append(temp.as_str());
    crate::digits::push_char(&mut out, ' ');
    let draw = df.padding(&g.power_readings.draw, "", Some(""), 3, Pad::Left, None);
    out.append(draw.as_str());
    let same_limit = g.power_readings.limit.val == g.power_readings.default_limit.val;
    if !same_limit {
        let limit = df.padding(&g.power_readings.limit, "", Some(""), 3, Pad::Left, None);
        out.append(limit.as_str());
    }
    out.append("W ");
    let usage = df.padding(&g.utilization.gpu, "", Some(""), 3, Pad::Left, None);
    out.append(usage.as_str());
    out.append("% ");
    let used = df.padding(&g.fb_memory_usage.used, "", Some(""), mem_w, Pad::Left, None);
    out.append(used.as_str());
    crate::digits::push_char(&mut out, '/');
    let total = df.padding(&g.fb_memory_usage.total, "", Some(""), mem_w, Pad::Left, None);
    out.append(total.as_str());
    out.append("MB");
    proof {
        reveal_strlit("");
        reveal_strlit("\u{b0}C");
        reveal_strlit("W ");
        reveal_strlit("% ");
        reveal_strlit("MB");
        assert("\u{b0}C"@ =~= seq!['\u{b0}', 'C']);
        assert(""@ =~= Seq::<char>::empty());
        assert("W "@ =~= seq!['W', ' ']);
        assert("% "@ =~= seq!['%', ' ']);
        assert("MB"@ =~= seq!['M', 'B']);
        assert(out@ =~= spec_gpu_row(*df, *g, index as nat, mem_w as nat));
    }
    out
}

} // verus!
