//! How the progress line shows a byte count and a file name.
use vstd::prelude::*;
use vstd::string::StringExecFns;
use vstd::string::StrSliceExecFns;
use vstd::string::StringSliceAdditionalSpecFns;
use vstd::utf8::{decode_utf8, is_char_boundary};
use crate::text::{decimal, digit_char, digit_str, push_decimal};

verus! {

/// `b / unit` in hundredths, rounded to the nearest, ties to even.
pub open spec fn hundredths(b: nat, unit: nat) -> nat
    recommends
        unit > 0,
{
    let q = (b * 100) / unit;
    let rem = (b * 100) % unit;
    if 2 * rem > unit || (2 * rem == unit && q % 2 == 1) {
        q + 1
    } else {
        q
    }
}

/// The gap between neighbouring `f64` values near `b`: 1 below 2^53, twice
/// as wide with each power of two above.
pub open spec fn spacing(b: nat) -> nat
    decreases b,
{
    if b < 9007199254740992 {
        1
    } else {
        2 * spacing(b / 2)
    }
}

/// `b` as an `f64` holds it: rounded to the nearest multiple of the spacing,
/// ties to an even multiple.
pub open spec fn nearest_double(b: nat) -> nat {
    let s = spacing(b);
    let q = b / s;
    let rem = b % s;
    if 2 * rem > s || (2 * rem == s && q % 2 == 1) {
        (q + 1) * s
    } else {
        q * s
    }
}

/// A count of hundredths written with two decimals.
pub open spec fn fixed2(h: nat) -> Seq<char> {
    decimal(h / 100) + seq!['.', digit_char((h / 10) % 10), digit_char(h % 10)]
}

/// A byte count in bytes, or in KB, MB or GB of 1024, 1024² and 1024³ bytes
/// with two decimals, taken from the count as an `f64` holds it.
pub open spec fn size_text(b: nat) -> Seq<char> {
    if b < 1024 {
        decimal(b) + " B"@
    } else if b < 1048576 {
        fixed2(hundredths(nearest_double(b), 1024)) + " KB"@
    } else if b < 1073741824 {
        fixed2(hundredths(nearest_double(b), 1048576)) + " MB"@
    } else {
        fixed2(hundredths(nearest_double(b), 1073741824)) + " GB"@
    }
}

fn to_nearest_double(b: u64) -> (r: u128)
    ensures
        r == nearest_double(b as nat),
        r <= 18446744073709555712,
{
    let mut s: u64 = 1;
    let mut t: u64 = b;
    while t >= 9007199254740992
        invariant
            0 < s < 4096,
            t == b as nat / s as nat,
            spacing(b as nat) == s * spacing(t as nat),
        decreases t,
    {
        proof {
            vstd::arithmetic::div_mod::lemma_div_denominator(b as int, s as int, 2);
            vstd::arithmetic::div_mod::lemma_fundamental_div_mod(b as int, s as int);
            assert(s * 9007199254740992 <= b) by (nonlinear_arith)
                requires
                    s * t <= b,
                    t >= 9007199254740992,
                    s > 0,
            ;
            assert(s < 2048) by (nonlinear_arith)
                requires
                    s * 9007199254740992 <= b,
                    b <= 18446744073709551615,
                    s > 0,
            ;
        }
        let ghost old_t = t;
        let ghost old_s = s;
        t = t / 2;
        s = s * 2;
        assert(spacing(old_t as nat) == 2 * spacing(t as nat));
        assert(old_s * (2 * spacing(t as nat)) == s * spacing(t as nat)) by (nonlinear_arith)
            requires
                s == old_s * 2,
        ;
    }
    assert(spacing(t as nat) == 1);
    let q = b / s;
    let rem = b % s;
    assert(q * s <= b) by (nonlinear_arith)
        requires
            q == b / s,
            s > 0,
    ;
    assert((q + 1) * s <= b + s) by (nonlinear_arith)
        requires
            q * s <= b,
    ;
    assert(spacing(b as nat) == s) by (nonlinear_arith)
        requires
            spacing(b as nat) == s * spacing(t as nat),
            spacing(t as nat) == 1,
    ;
    if 2 * (rem as u128) > s as u128 || (2 * (rem as u128) == s as u128 && q % 2 == 1) {
        (q as u128 + 1) * s as u128
    } else {
        q as u128 * s as u128
    }
}

fn round_hundredths(b: u128, unit: u128) -> (r: u128)
    requires
        0 < unit <= 1073741824,
        b <= 18446744073709555712,
    ensures
        r == hundredths(b as nat, unit as nat),
{
    let scaled: u128 = b * 100;
    let q = scaled / unit;
    let rem = scaled % unit;
    assert(q <= scaled) by (nonlinear_arith)
        requires
            q == scaled / unit,
            unit > 0,
    ;
    if 2 * rem > unit || (2 * rem == unit && q % 2 == 1) {
        q + 1
    } else {
        q
    }
}

fn push_fixed2(out: &mut String, h: u128)
    ensures
        final(out)@ == old(out)@ + fixed2(h as nat),
{
    push_decimal(out, h / 100);
    proof {
        reveal_strlit(".");
    }
    out.append(".");
    out.append(digit_str((h / 10) % 10));
    out.append(digit_str(h % 10));
    assert(final(out)@ =~= old(out)@ + fixed2(h as nat));
}

/// A byte count for people to read: `512 B`, `1.50 KB`, `3.00 MB`.
pub fn format_size(bytes: u64) -> (r: String)
    ensures
        r@ == size_text(bytes as nat),
{
    let mut r = String::new();
    if bytes < 1024 {
        push_decimal(&mut r, bytes as u128);
        r.append(" B");
    } else if bytes < 1048576 {
        push_fixed2(&mut r, round_hundredths(to_nearest_double(bytes), 1024));
        r.append(" KB");
    } else if bytes < 1073741824 {
        push_fixed2(&mut r, round_hundredths(to_nearest_double(bytes), 1048576));
        r.append(" MB");
    } else {
        push_fixed2(&mut r, round_hundredths(to_nearest_double(bytes), 1073741824));
        r.append(" GB");
    }
    r
}

/// `n` spaces.
pub open spec fn spaces(n: nat) -> Seq<char> {
    Seq::new(n, |i: int| ' ')
}

/// A file name shown in a field of `field_width`: a longer name (in bytes)
/// keeps its last `field_width - 3` bytes after `...`; a shorter one is padded
/// on the left with spaces up to `field_width` characters.
pub fn format_filename(filename: &str, field_width: usize) -> (r: String)
    requires
        filename.spec_bytes().len() > field_width ==> field_width >= 3 && is_char_boundary(
            filename.spec_bytes(),
            filename.spec_bytes().len() - (field_width - 3),
        ),
    ensures
        filename.spec_bytes().len() > field_width ==> r@ == "..."@ + decode_utf8(
            filename.spec_bytes().subrange(
                filename.spec_bytes().len() - (field_width - 3),
                filename.spec_bytes().len() as int,
            ),
        ),
        filename.spec_bytes().len() <= field_width ==> r@ == spaces(
            if filename@.len() < field_width {
                (field_width - filename@.len()) as nat
            } else {
                0
            },
        ) + filename@,
{
    let len = filename.as_bytes().len();
    if len > field_width {
        let keep = field_width - 3;
        let (_, tail) = filename.split_at(len - keep);
        proof {
            vstd::utf8::encode_utf8_decode_utf8(tail@);
        }
        let mut r = String::from_str("...");
        r.append(tail);
        r
    } else {
        let n = filename.unicode_len();
        let mut r = String::new();
        let mut k: usize = 0;
        let pad: usize = if n < field_width {
            field_width - n
        } else {
            0
        };
        while k < pad
            invariant
                k <= pad,
                r@ == spaces(k as nat),
            decreases pad - k,
        {
            proof {
                reveal_strlit(" ");
            }
            r.append(" ");
            assert(r@ =~= spaces((k + 1) as nat));
            k = k + 1;
        }
        r.append(filename);
        r
    }
}

} // verus!
