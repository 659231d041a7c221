//! Decimal formatting of fixed-point values, and the precision selector.
//!
//! A fixed-point value is printed with 0, 1 or 2 decimal places: it is first
//! rounded (ties away from zero) to that many places, then spelled out with a
//! sign taken from the unrounded value, the integer part, and a zero-padded
//! fraction.  The precision is chosen by scanning a format string for the
//! fragments `:.2`, `:.1` and `:.0`, in that order, falling back to two
//! places.

use crate::arith::{
    div_round_i128, lemma_round_away_le_num, lemma_round_away_neg, round_away,
};
use crate::sample::Sample;
use crate::text::repeat_char;
use vstd::prelude::*;
use vstd::string::StrSliceExecFns;

verus! {

/// Ten to the `n`.
pub open spec fn pow10(n: nat) -> nat
    decreases n,
{
    if n == 0 {
        1
    } else {
        10 * pow10((n - 1) as nat)
    }
}

/// The decimal digit `n` as a character.
pub open spec fn digit_char(n: nat) -> char {
    if n == 0 {
        '0'
    } else if n == 1 {
        '1'
    } else if n == 2 {
        '2'
    } else if n == 3 {
        '3'
    } else if n == 4 {
        '4'
    } else if n == 5 {
        '5'
    } else if n == 6 {
        '6'
    } else if n == 7 {
        '7'
    } else if n == 8 {
        '8'
    } else {
        '9'
    }
}

/// The decimal digits of `n`, most significant first, with no leading zero
/// except for `n == 0` itself.
pub open spec fn dec_digits(n: nat) -> Seq<char>
    decreases n,
{
    if n < 10 {
        seq![digit_char(n)]
    } else {
        dec_digits(n / 10).push(digit_char(n % 10))
    }
}

/// The text of the fixed-point value `m` (in millionths) printed with `prec`
/// decimal places, `prec <= 2`: rounded to that many places, ties away from
/// zero, with the sign of the original value.
pub open spec fn spec_fmt_fixed(m: int, prec: nat) -> Seq<char> {
    let scaled = round_away(m, pow10((6 - prec) as nat) as int);
    let mag = (if scaled >= 0 {
        scaled
    } else {
        -scaled
    }) as nat;
    let sign: Seq<char> = if m < 0 {
        seq!['-']
    } else {
        Seq::empty()
    };
    let whole = dec_digits(mag / pow10(prec));
    if prec == 0 {
        sign + whole
    } else {
        let frac = dec_digits(mag % pow10(prec));
        sign + whole + seq!['.'] + repeat_char('0', (prec - frac.len()) as nat) + frac
    }
}

/// The text of any sample at the given precision; non-finite samples print
/// their floating-point names.
pub open spec fn spec_fmt_sample(s: Sample, prec: nat) -> Seq<char> {
    match s {
        Sample::Finite(m) => spec_fmt_fixed(m as int, prec),
        Sample::Nan => "NaN"@,
        Sample::PosInf => "inf"@,
        Sample::NegInf => "-inf"@,
    }
}

/// The characters value formatting can produce: digits, the sign, the
/// decimal point, and the letters of the non-finite names.
pub open spec fn fmt_char(c: char) -> bool {
    c == '0' || c == '1' || c == '2' || c == '3' || c == '4' || c == '5' || c == '6' || c == '7'
        || c == '8' || c == '9' || c == '-' || c == '.' || c == 'N' || c == 'a' || c == 'i' || c
        == 'n' || c == 'f'
}

/// Digit runs consist of formatting characters.
pub proof fn lemma_dec_digits_chars(n: nat)
    ensures
        forall|k: int| 0 <= k < dec_digits(n).len() ==> fmt_char(#[trigger] dec_digits(n)[k]),
    decreases n,
{
    if n >= 10 {
        lemma_dec_digits_chars(n / 10);
        assert forall|k: int| 0 <= k < dec_digits(n).len() implies fmt_char(
            #[trigger] dec_digits(n)[k],
        ) by {
            if k < dec_digits(n).len() - 1 {
                assert(dec_digits(n)[k] == dec_digits(n / 10)[k]);
            } else {
                assert(dec_digits(n)[k] == digit_char(n % 10));
            }
        }
    }
}

/// Fixed-point formatting yields only formatting characters, and at least
/// one of them.
pub proof fn lemma_fmt_fixed_chars(m: int, prec: nat)
    ensures
        spec_fmt_fixed(m, prec).len() >= 1,
        forall|k: int|
            0 <= k < spec_fmt_fixed(m, prec).len() ==> fmt_char(#[trigger] spec_fmt_fixed(m, prec)[k]),
{
    let scaled = round_away(m, pow10((6 - prec) as nat) as int);
    let mag = (if scaled >= 0 {
        scaled
    } else {
        -scaled
    }) as nat;
    lemma_dec_digits_chars(mag / pow10(prec));
    lemma_dec_digits_chars(mag % pow10(prec));
}

/// Sample formatting yields only formatting characters, and at least one.
pub proof fn lemma_fmt_sample_chars(s: Sample, prec: nat)
    ensures
        spec_fmt_sample(s, prec).len() >= 1,
        forall|k: int|
            0 <= k < spec_fmt_sample(s, prec).len() ==> fmt_char(
                #[trigger] spec_fmt_sample(s, prec)[k],
            ),
{
    match s {
        Sample::Finite(m) => {
            lemma_fmt_fixed_chars(m as int, prec);
        },
        Sample::Nan => {
            reveal_strlit("NaN");
        },
        Sample::PosInf => {
            reveal_strlit("inf");
        },
        Sample::NegInf => {
            reveal_strlit("-inf");
        },
    }
}

/// Whether the three characters `a`, `b`, `c` occur consecutively in `s`.
pub open spec fn has_sub3(s: Seq<char>, a: char, b: char, c: char) -> bool {
    exists|i: int| 0 <= i && i + 2 < s.len() && #[trigger] s[i] == a && s[i + 1] == b && s[i + 2] == c
}

/// The number of decimal places a format string selects: `:.2`, `:.1` and
/// `:.0` are recognized in that order, anything else means two places.
pub open spec fn spec_precision(s: Seq<char>) -> u8 {
    if has_sub3(s, ':', '.', '2') {
        2
    } else if has_sub3(s, ':', '.', '1') {
        1
    } else if has_sub3(s, ':', '.', '0') {
        0
    } else {
        2
    }
}

/// Scans a string for three consecutive characters.
fn contains3(s: &str, a: char, b: char, c: char) -> (r: bool)
    ensures
        r == has_sub3(s@, a, b, c),
{
    let n = s.unicode_len();
    if n < 3 {
        return false;
    }
    let mut i: usize = 0;
    while i + 2 < n
        invariant
            n == s@.len(),
            n >= 3,
            0 <= i,
            i + 2 <= n,
            forall|j: int|
                0 <= j < i ==> !(#[trigger] s@[j] == a && s@[j + 1] == b && s@[j + 2] == c),
        decreases n - i,
    {
        if s.get_char(i) == a && s.get_char(i + 1) == b && s.get_char(i + 2) == c {
            assert(has_sub3(s@, a, b, c)) by {
                assert(0 <= i as int && i as int + 2 < s@.len() && s@[i as int] == a && s@[
                    i as int + 1
                ] == b && s@[i as int + 2] == c);
            }
            return true;
        }
        i = i + 1;
    }
    false
}

/// The number of decimal places a format string selects.
pub fn precision_of(s: &str) -> (p: u8)
    ensures
        p == spec_precision(s@),
{
    if contains3(s, ':', '.', '2') {
        2
    } else if contains3(s, ':', '.', '1') {
        1
    } else if contains3(s, ':', '.', '0') {
        0
    } else {
        2
    }
}

/// The digit character for `n < 10`.
fn digit_char_exec(n: u64) -> (c: char)
    requires
        n < 10,
    ensures
        c == digit_char(n as nat),
{
    if n == 0 {
        '0'
    } else if n == 1 {
        '1'
    } else if n == 2 {
        '2'
    } else if n == 3 {
        '3'
    } else if n == 4 {
        '4'
    } else if n == 5 {
        '5'
    } else if n == 6 {
        '6'
    } else if n == 7 {
        '7'
    } else if n == 8 {
        '8'
    } else {
        '9'
    }
}

/// Appends the decimal digits of `n`, most significant first.
fn push_digits(out: &mut Vec<char>, n: u64)
    ensures
        final(out)@ == old(out)@ + dec_digits(n as nat),
    decreases n,
{
    if n < 10 {
        out.push(digit_char_exec(n));
        proof {
            assert(old(out)@.push(digit_char(n as nat)) =~= old(out)@ + dec_digits(n as nat));
        }
    } else {
        push_digits(out, n / 10);
        out.push(digit_char_exec(n % 10));
        proof {
            assert((old(out)@ + dec_digits((n / 10) as nat)).push(digit_char((n % 10) as nat))
                =~= old(out)@ + dec_digits(n as nat));
        }
    }
}

/// The text of the fixed-point value `m` printed with `prec` decimal places.
pub(crate) fn format_fixed(m: i64, prec: u8) -> (v: Vec<char>)
    requires
        prec <= 2,
    ensures
        v@ == spec_fmt_fixed(m as int, prec as nat),
{
    proof {
        assert(pow10(0) == 1);
        assert(pow10(1) == 10);
        assert(pow10(2) == 100);
        assert(pow10(3) == 1000);
        assert(pow10(4) == 10000);
        assert(pow10(5) == 100000);
        assert(pow10(6) == 1000000);
    }
    let div: i128 = if prec == 0 {
        1000000
    } else if prec == 1 {
        100000
    } else {
        10000
    };
    let scaled = div_round_i128(m as i128, div);
    proof {
        if m >= 0 {
            lemma_round_away_le_num(m as int, div as int);
        } else {
            lemma_round_away_neg(-(m as int), div as int);
            lemma_round_away_le_num(-(m as int), div as int);
        }
    }
    let mag: u64 = if scaled >= 0 {
        scaled as u64
    } else {
        (-scaled) as u64
    };
    let pw: u64 = if prec == 0 {
        1
    } else if prec == 1 {
        10
    } else {
        100
    };
    let mut v: Vec<char> = Vec::new();
    if m < 0 {
        v.push('-');
    }
    push_digits(&mut v, mag / pw);
    if prec > 0 {
        v.push('.');
        let frac = mag % pw;
        if prec == 2 && frac < 10 {
            v.push('0');
        }
        push_digits(&mut v, frac);
        proof {
            let fd = dec_digits((mag % pw) as nat);
            if prec == 2 && frac >= 10 {
                assert(fd == dec_digits((frac / 10) as nat).push(digit_char((frac % 10) as nat)));
                assert(fd.len() == 2);
            }
            assert(v@ =~= spec_fmt_fixed(m as int, prec as nat));
        }
    } else {
        proof {
            assert(v@ =~= spec_fmt_fixed(m as int, prec as nat));
        }
    }
    v
}

/// The text of any sample at the given precision.
pub(crate) fn format_sample(s: Sample, prec: u8) -> (v: Vec<char>)
    requires
        prec <= 2,
    ensures
        v@ == spec_fmt_sample(s, prec as nat),
{
    match s {
        Sample::Finite(m) => format_fixed(m, prec),
        Sample::Nan => {
            let v = vec!['N', 'a', 'N'];
            proof {
                reveal_strlit("NaN");
                assert(v@ =~= "NaN"@);
            }
            v
        },
        Sample::PosInf => {
            let v = vec!['i', 'n', 'f'];
            proof {
                reveal_strlit("inf");
                assert(v@ =~= "inf"@);
            }
            v
        },
        Sample::NegInf => {
            let v = vec!['-', 'i', 'n', 'f'];
            proof {
                reveal_strlit("-inf");
                assert(v@ =~= "-inf"@);
            }
            v
        },
    }
}

} // verus!
