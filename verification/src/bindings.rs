//! The host functions the bar offers to layout scripts, on their plain-value
//! side: color parsing, label construction, and refresh-timer construction.
//! The script evaluator itself only wraps these.

use vstd::prelude::*;
use vstd::string::StrSliceExecFns;
use crate::widget::Duration;
use crate::widget::NANOS_PER_MILLI;
use crate::widget::WidgetError;
use crate::widget::WidgetRefreshRate;

verus! {

/// A drawing instruction: colored text.
#[derive(Clone, Debug)]
pub struct Label {
    pub text: String,
    pub red: u8,
    pub green: u8,
    pub blue: u8,
    pub alpha: u8,
}

/// Why a color string was rejected.
#[derive(Clone, Copy, Debug, PartialEq, Eq, Structural)]
pub enum ColorError {
    /// After an optional leading `#`, the string has neither six nor eight
    /// characters.
    BadLength,
    /// A character is not a hexadecimal digit.
    BadDigit,
}

pub open spec fn is_hex_digit(c: char) -> bool {
    ('0' as u32 <= c as u32 && c as u32 <= '9' as u32) || ('a' as u32 <= c as u32 && c as u32
        <= 'f' as u32) || ('A' as u32 <= c as u32 && c as u32 <= 'F' as u32)
}

pub open spec fn hex_digit_val(c: char) -> int {
    if '0' as u32 <= c as u32 && c as u32 <= '9' as u32 {
        c as u32 - '0' as u32
    } else if 'a' as u32 <= c as u32 && c as u32 <= 'f' as u32 {
        c as u32 - 'a' as u32 + 10
    } else {
        c as u32 - 'A' as u32 + 10
    }
}

pub open spec fn all_hex(s: Seq<char>) -> bool {
    forall|i: int| 0 <= i < s.len() ==> is_hex_digit(s[i])
}

/// The value of a string of hexadecimal digits, most significant first.
pub open spec fn hex_value(s: Seq<char>) -> int
    decreases s.len(),
{
    if s.len() == 0 {
        0
    } else {
        hex_value(s.drop_last()) * 16 + hex_digit_val(s.last())
    }
}

pub open spec fn pow16(n: nat) -> int
    decreases n,
{
    if n == 0 {
        1
    } else {
        16 * pow16((n - 1) as nat)
    }
}

proof fn lemma_pow16_pos(n: nat)
    ensures
        pow16(n) >= 1,
    decreases n,
{
    if n > 0 {
        lemma_pow16_pos((n - 1) as nat);
    }
}

proof fn lemma_pow16_le(a: nat, b: nat)
    requires
        a <= b,
    ensures
        pow16(a) <= pow16(b),
    decreases b,
{
    if a < b {
        lemma_pow16_le(a, (b - 1) as nat);
        lemma_pow16_pos((b - 1) as nat);
    }
}

/// What [`color_hex`] returns for the given characters.
///
/// An optional leading `#` is stripped; the rest must be six digits (a
/// `RRGGBB` value, shifted to leave the alpha channel zero) or eight digits
/// (an `RRGGBBAA` value).  As with integer parsing, one leading `+` before
/// the digits is tolerated.
pub open spec fn spec_color_hex(s: Seq<char>) -> Result<i64, ColorError> {
    let t = if s.len() > 0 && s[0] == '#' {
        s.subrange(1, s.len() as int)
    } else {
        s
    };
    if t.len() != 6 && t.len() != 8 {
        Err(ColorError::BadLength)
    } else {
        let digits = if t[0] == '+' {
            t.subrange(1, t.len() as int)
        } else {
            t
        };
        if !all_hex(digits) {
            Err(ColorError::BadDigit)
        } else if t.len() == 6 {
            Ok((hex_value(digits) * 0x100) as i64)
        } else {
            Ok(hex_value(digits) as i64)
        }
    }
}

fn hex_digit_value(c: char) -> (r: Option<u8>)
    ensures
        r is Some <==> is_hex_digit(c),
        r matches Some(d) ==> d == hex_digit_val(c),
{
    let u = c as u32;
    if '0' as u32 <= u && u <= '9' as u32 {
        Some((u - '0' as u32) as u8)
    } else if 'a' as u32 <= u && u <= 'f' as u32 {
        Some((u - 'a' as u32 + 10) as u8)
    } else if 'A' as u32 <= u && u <= 'F' as u32 {
        Some((u - 'A' as u32 + 10) as u8)
    } else {
        None
    }
}

/// Parses a `#RRGGBB` or `#RRGGBBAA` color string into the packed integer
/// form the scripts pass around (the `#` is optional).  Six digits leave the
/// alpha byte zero.
#[verifier::loop_isolation(false)]
#[verifier::rlimit(30)]
pub fn color_hex(s: &str) -> (r: Result<i64, ColorError>)
    ensures
        r == spec_color_hex(s@),
{
    let len = s.unicode_len();
    let start: usize = if len > 0 && s.get_char(0) == '#' {
        1
    } else {
        0
    };
    let ghost t = if start == 1 {
        s@.subrange(1, s@.len() as int)
    } else {
        s@
    };
    let tlen = len - start;
    if tlen != 6 && tlen != 8 {
        return Err(ColorError::BadLength);
    }
    let dstart: usize = if s.get_char(start) == '+' {
        start + 1
    } else {
        start
    };
    let ghost digits = s@.subrange(dstart as int, s@.len() as int);
    proof {
        if start == 1 {
            assert(t[0] == s@[1]);
        }
        if dstart == start {
            assert(digits =~= t);
        } else {
            assert(digits =~= t.subrange(1, t.len() as int));
        }
    }
    proof {
        assert(pow16(8) == 0x1_0000_0000) by {
            reveal_with_fuel(pow16, 9);
        }
    }
    let mut acc: u64 = 0;
    let mut i: usize = dstart;
    while i < len
        invariant
            dstart <= i <= len,
            len == s@.len(),
            len - dstart <= 8,
            digits == s@.subrange(dstart as int, s@.len() as int),
            acc == hex_value(s@.subrange(dstart as int, i as int)),
            acc < pow16((i - dstart) as nat),
            all_hex(s@.subrange(dstart as int, i as int)),
        decreases len - i,
    {
        let c = s.get_char(i);
        let d = match hex_digit_value(c) {
            Some(d) => d,
            None => {
                proof {
                    assert(digits[i - dstart] == c);
                    assert(!is_hex_digit(digits[i - dstart]));
                    assert(!all_hex(digits));
                }
                return Err(ColorError::BadDigit);
            },
        };
        proof {
            let pre = s@.subrange(dstart as int, i as int);
            let post = s@.subrange(dstart as int, i + 1 as int);
            assert(post.drop_last() =~= pre);
            assert(post.last() == c);
            assert(pow16(((i + 1) - dstart) as nat) == 16 * pow16((i - dstart) as nat));
            lemma_pow16_le(((i + 1) - dstart) as nat, 8);
        }
        acc = acc * 16 + d as u64;
        i = i + 1;
    }
    proof {
        assert(s@.subrange(dstart as int, len as int) =~= digits);
        lemma_pow16_le((len - dstart) as nat, 8);
    }
    if tlen == 6 {
        Ok((acc * 0x100) as i64)
    } else {
        Ok(acc as i64)
    }
}

/// Packs a text and a `0xRRGGBBAA` color integer into a label; the color's
/// low 32 bits are split big-endian into the four channels.
pub fn label_color(text: String, color: i64) -> (l: Label)
    ensures
        l.text == text,
        l.red == ((color as u32) >> 24) as u8,
        l.green == ((color as u32) >> 16) as u8,
        l.blue == ((color as u32) >> 8) as u8,
        l.alpha == (color as u32) as u8,
{
    let c = color as u32;
    Label {
        text,
        red: (c >> 24) as u8,
        green: (c >> 16) as u8,
        blue: (c >> 8) as u8,
        alpha: c as u8,
    }
}

/// A refresh timer of whole seconds; negative lengths are rejected.
pub fn timer_seconds(value: i64) -> (r: Result<WidgetRefreshRate, WidgetError>)
    ensures
        value >= 0 ==> r == Ok::<WidgetRefreshRate, WidgetError>(
            WidgetRefreshRate::Timer(Duration { secs: value as u64, nanos: 0 }),
        ),
        value < 0 ==> r == Err::<WidgetRefreshRate, WidgetError>(WidgetError::NegativeTime),
{
    if value < 0 {
        return Err(WidgetError::NegativeTime);
    }
    Ok(WidgetRefreshRate::Timer(Duration::from_secs(value as u64)))
}

/// A refresh timer of whole milliseconds; negative lengths are rejected.
pub fn timer_millis(value: i64) -> (r: Result<WidgetRefreshRate, WidgetError>)
    ensures
        value >= 0 ==> (r matches Ok(t) && t matches WidgetRefreshRate::Timer(d) && d.wf()
            && d.as_nanos() == value * (NANOS_PER_MILLI as int)),
        value < 0 ==> r == Err::<WidgetRefreshRate, WidgetError>(WidgetError::NegativeTime),
{
    if value < 0 {
        return Err(WidgetError::NegativeTime);
    }
    Ok(WidgetRefreshRate::Timer(Duration::from_millis(value as u64)))
}

} // verus!
