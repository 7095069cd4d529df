//! Decimal rendering of byte counts and rates, with integer arithmetic only.
use vstd::prelude::*;
use vstd::string::StringExecFns;

verus! {

/// The character of a decimal digit.
pub open spec fn digit_char(d: nat) -> char {
    seq!['0', '1', '2', '3', '4', '5', '6', '7', '8', '9'][(d % 10) as int]
}

/// The decimal digits of `n`, most significant first, without leading zeros.
pub open spec fn decimal(n: nat) -> Seq<char>
    decreases n,
{
    if n < 10 {
        seq![digit_char(n)]
    } else {
        decimal(n / 10).push(digit_char(n % 10))
    }
}

/// `num * scale / den`, rounded to the nearest integer, a tie going to the even one.
pub open spec fn round_ratio(num: nat, den: nat, scale: nat) -> nat
    recommends
        den > 0,
{
    let q = num * scale / den;
    let r = num * scale % den;
    if 2 * r > den || (2 * r == den && q % 2 == 1) {
        q + 1
    } else {
        q
    }
}

/// `tenths / 10` written with one decimal place.
pub open spec fn one_place(tenths: nat) -> Seq<char> {
    decimal(tenths / 10).push('.').push(digit_char(tenths % 10))
}

/// `hundredths / 100` written with two decimal places.
pub open spec fn two_places(hundredths: nat) -> Seq<char> {
    decimal(hundredths / 100).push('.').push(digit_char(hundredths / 10)).push(
        digit_char(hundredths % 10),
    )
}

pub const KIB: u64 = 1024;

pub const MIB: u64 = 1048576;

pub const GIB: u64 = 1073741824;

fn digit_str(d: u128) -> (r: &'static str)
    requires
        d < 10,
    ensures
        r@ == seq![digit_char(d as nat)],
{
    if d == 0 {
        proof { reveal_strlit("0"); }
        "0"
    } else if d == 1 {
        proof { reveal_strlit("1"); }
        "1"
    } else if d == 2 {
        proof { reveal_strlit("2"); }
        "2"
    } else if d == 3 {
        proof { reveal_strlit("3"); }
        "3"
    } else if d == 4 {
        proof { reveal_strlit("4"); }
        "4"
    } else if d == 5 {
        proof { reveal_strlit("5"); }
        "5"
    } else if d == 6 {
        proof { reveal_strlit("6"); }
        "6"
    } else if d == 7 {
        proof { reveal_strlit("7"); }
        "7"
    } else if d == 8 {
        proof { reveal_strlit("8"); }
        "8"
    } else {
        proof { reveal_strlit("9"); }
        "9"
    }
}

/// Appends the decimal digits of `n`.
pub fn push_decimal(s: &mut String, n: u128)
    ensures
        final(s)@ == old(s)@ + decimal(n as nat),
    decreases n,
{
    if n >= 10 {
        push_decimal(s, n / 10);
        s.append(digit_str(n % 10));
        proof {
            assert(old(s)@ + decimal(n as nat) =~= old(s)@ + decimal((n / 10) as nat) + seq![
                digit_char((n % 10) as nat),
            ]);
        }
    } else {
        s.append(digit_str(n));
    }
}

/// Appends `tenths / 10` with one decimal place.
pub fn push_one_place(s: &mut String, tenths: u128)
    ensures
        final(s)@ == old(s)@ + one_place(tenths as nat),
{
    push_decimal(s, tenths / 10);
    proof { reveal_strlit("."); }
    s.append(".");
    s.append(digit_str(tenths % 10));
    assert(final(s)@ =~= old(s)@ + one_place(tenths as nat));
}

/// Appends `hundredths / 100` with two decimal places.
pub fn push_two_places(s: &mut String, hundredths: u128)
    ensures
        final(s)@ == old(s)@ + two_places(hundredths as nat),
{
    push_decimal(s, hundredths / 100);
    proof { reveal_strlit("."); }
    s.append(".");
    s.append(digit_str((hundredths / 10) % 10));
    s.append(digit_str(hundredths % 10));
    assert(digit_char((hundredths / 10) as nat) == digit_char(((hundredths / 10) % 10) as nat));
    assert(final(s)@ =~= old(s)@ + two_places(hundredths as nat));
}

/// `num * scale / den` rounded to nearest, ties to even.
pub fn round_ratio_exec(num: u64, den: u64, scale: u64) -> (r: u128)
    requires
        den > 0,
        scale <= 100,
    ensures
        r as nat == round_ratio(num as nat, den as nat, scale as nat),
{
    assert((num as u128) * (scale as u128) <= 0xffff_ffff_ffff_ffffu128 * 100) by (nonlinear_arith)
        requires
            num <= 0xffff_ffff_ffff_ffffu64,
            scale <= 100,
    ;
    let scaled: u128 = (num as u128) * (scale as u128);
    let q: u128 = scaled / (den as u128);
    assert(q <= scaled) by (nonlinear_arith)
        requires
            q == scaled / (den as u128),
            den > 0,
    ;
    let rem: u128 = scaled % (den as u128);
    if 2 * rem > den as u128 || (2 * rem == den as u128 && q % 2 == 1) {
        q + 1
    } else {
        q
    }
}

/// How a byte rate is shown: whole bytes below one KiB/s, else KiB/s or MiB/s with one decimal.
pub open spec fn speed_text(bytes_per_sec: nat) -> Seq<char> {
    if bytes_per_sec >= MIB {
        one_place(round_ratio(bytes_per_sec, MIB as nat, 10)) + " MB/s"@
    } else if bytes_per_sec >= KIB {
        one_place(round_ratio(bytes_per_sec, KIB as nat, 10)) + " KB/s"@
    } else {
        decimal(bytes_per_sec) + " B/s"@
    }
}

/// How a size is shown: whole bytes below one KiB, one decimal in KiB or MiB, two in GiB.
pub open spec fn size_text(size: nat) -> Seq<char> {
    if size < KIB {
        decimal(size) + " o"@
    } else if size < MIB {
        one_place(round_ratio(size, KIB as nat, 10)) + " Ko"@
    } else if size < GIB {
        one_place(round_ratio(size, MIB as nat, 10)) + " Mo"@
    } else {
        two_places(round_ratio(size, GIB as nat, 100)) + " Go"@
    }
}

/// Renders a transfer rate given in bytes per second.
pub fn format_speed(bytes_per_sec: u64) -> (r: String)
    ensures
        r@ == speed_text(bytes_per_sec as nat),
{
    let mut s = String::new();
    if bytes_per_sec >= MIB {
        push_one_place(&mut s, round_ratio_exec(bytes_per_sec, MIB, 10));
        s.append(" MB/s");
    } else if bytes_per_sec >= KIB {
        push_one_place(&mut s, round_ratio_exec(bytes_per_sec, KIB, 10));
        s.append(" KB/s");
    } else {
        push_decimal(&mut s, bytes_per_sec as u128);
        s.append(" B/s");
    }
    s
}

/// Renders a size given in bytes.
pub fn format_size(size: usize) -> (r: String)
    ensures
        r@ == size_text(size as nat),
{
    let n = size as u64;
    let mut s = String::new();
    if n < KIB {
        push_decimal(&mut s, n as u128);
        s.append(" o");
    } else if n < MIB {
        push_one_place(&mut s, round_ratio_exec(n, KIB, 10));
        s.append(" Ko");
    } else if n < GIB {
        push_one_place(&mut s, round_ratio_exec(n, MIB, 10));
        s.append(" Mo");
    } else {
        push_two_places(&mut s, round_ratio_exec(n, GIB, 100));
        s.append(" Go");
    }
    s
}

} // verus!
