//! Reading a user's bandwidth cap, written in MiB/s as a decimal numeral.
use vstd::prelude::*;

verus! {

/// Why a cap was refused.
#[derive(Debug, Clone, Copy, PartialEq, Eq, Structural)]
pub enum RateError {
    /// Not a number (empty, letters, two points, a bare exponent mark).
    Malformed,
    /// A numeral below zero.
    Negative,
}

/// Unicode white space (the `White_Space` property), as `str::trim` removes it.
pub open spec fn is_ws(c: char) -> bool {
    ('\u{9}' <= c && c <= '\u{d}') || c == ' ' || c == '\u{85}' || c == '\u{a0}' || c == '\u{1680}'
        || ('\u{2000}' <= c && c <= '\u{200a}') || c == '\u{2028}' || c == '\u{2029}' || c
        == '\u{202f}' || c == '\u{205f}' || c == '\u{3000}'
}

pub open spec fn is_digit(c: char) -> bool {
    '0' <= c && c <= '9'
}

pub open spec fn trim_start(s: Seq<char>) -> Seq<char>
    decreases s.len(),
{
    if s.len() > 0 && is_ws(s[0]) {
        trim_start(s.skip(1))
    } else {
        s
    }
}

pub open spec fn trim_end(s: Seq<char>) -> Seq<char>
    decreases s.len(),
{
    if s.len() > 0 && is_ws(s.last()) {
        trim_end(s.drop_last())
    } else {
        s
    }
}

/// `s` without leading and trailing blanks.
pub open spec fn trimmed(s: Seq<char>) -> Seq<char> {
    trim_end(trim_start(s))
}

/// The digits of `s`, in order.
pub open spec fn digits_of(s: Seq<char>) -> Seq<char> {
    s.filter(|c: char| is_digit(c))
}

/// The number of points in `s`.
pub open spec fn points_in(s: Seq<char>) -> nat {
    s.filter(|c: char| c == '.').len()
}

/// The value of a string of decimal digits.
pub open spec fn digits_value(d: Seq<char>) -> nat
    decreases d.len(),
{
    if d.len() == 0 {
        0
    } else {
        digits_value(d.drop_last()) * 10 + ((d.last() as u32 - '0' as u32) as nat)
    }
}

/// How many digits stand after the point of `s`.
pub open spec fn fraction_digits(s: Seq<char>) -> nat
    decreases s.len(),
{
    if s.len() == 0 {
        0
    } else if is_digit(s.last()) && s.drop_last().contains('.') {
        fraction_digits(s.drop_last()) + 1
    } else {
        fraction_digits(s.drop_last())
    }
}

pub open spec fn pow10(k: nat) -> nat
    decreases k,
{
    if k == 0 {
        1
    } else {
        10 * pow10((k - 1) as nat)
    }
}

/// Digits with at most one point, and at least one digit.
pub open spec fn is_numeral(b: Seq<char>) -> bool {
    &&& forall|i: int| 0 <= i < b.len() ==> is_digit(#[trigger] b[i]) || b[i] == '.'
    &&& points_in(b) <= 1
    &&& digits_of(b).len() >= 1
}

/// The digits of the numeral `b` read as one integer: `b` is worth
/// `mantissa(b) / 10^fraction_digits(b)`.
pub open spec fn mantissa(b: Seq<char>) -> nat {
    digits_value(digits_of(b))
}

/// The exponent mark.
pub open spec fn is_mark(c: char) -> bool {
    c == 'e' || c == 'E'
}

/// Where the first exponent mark of `b` stands; the length of `b` when it has none.
pub open spec fn first_mark(b: Seq<char>) -> nat
    decreases b.len(),
{
    if b.len() == 0 {
        0
    } else if is_mark(b[0]) {
        0
    } else {
        1 + first_mark(b.skip(1))
    }
}

/// An exponent's digits: `x` less an optional leading sign.
pub open spec fn exponent_digits(x: Seq<char>) -> Seq<char> {
    if x.len() > 0 && (x[0] == '+' || x[0] == '-') {
        x.skip(1)
    } else {
        x
    }
}

/// An optional sign, then at least one digit.
pub open spec fn is_exponent(x: Seq<char>) -> bool {
    &&& exponent_digits(x).len() > 0
    &&& forall|i: int| 0 <= i < exponent_digits(x).len() ==> is_digit(#[trigger] exponent_digits(x)[i])
}

pub open spec fn exponent_value(x: Seq<char>) -> int {
    if x.len() > 0 && x[0] == '-' {
        -(digits_value(exponent_digits(x)) as int)
    } else {
        digits_value(exponent_digits(x)) as int
    }
}

/// An unsigned number: a decimal numeral, then optionally `e` or `E` and an
/// integer exponent.
pub open spec fn is_number(b: Seq<char>) -> bool {
    let f = first_mark(b) as int;
    &&& is_numeral(b.take(f))
    &&& f < b.len() ==> is_exponent(b.skip(f + 1))
}

/// The power of ten that scales the mantissa's digits to the number's value.
pub open spec fn shift_of(b: Seq<char>) -> int {
    let f = first_mark(b) as int;
    (if f < b.len() {
        exponent_value(b.skip(f + 1))
    } else {
        0
    }) - fraction_digits(b.take(f))
}

/// A cap of `m * 10^k` MiB/s in whole KiB/s, rounded down, at most `u32::MAX`.
pub open spec fn kbps_of(m: nat, k: int) -> u32 {
    let v = if k >= 0 {
        m * 1024 * pow10(k as nat)
    } else {
        m * 1024 / pow10((-k) as nat)
    };
    if v > u32::MAX {
        u32::MAX
    } else {
        v as u32
    }
}

/// The sign and the unsigned part of a trimmed input.
pub open spec fn unsigned_part(t: Seq<char>) -> Seq<char> {
    if t.len() > 0 && (t[0] == '-' || t[0] == '+') {
        t.skip(1)
    } else {
        t
    }
}

/// What a cap text means, in KiB/s. White space around it is ignored; a
/// sign may lead; the number is a decimal numeral with an optional
/// exponent, of any length. Zero (however written) is a valid cap that lifts
/// the limit. Names such as `inf` or `NaN` are no numbers.
pub open spec fn rate_of(s: Seq<char>) -> Result<u32, RateError> {
    let t = trimmed(s);
    let b = unsigned_part(t);
    let mt = b.take(first_mark(b) as int);
    if !is_number(b) {
        Err(RateError::Malformed)
    } else if t[0] == '-' && mantissa(mt) > 0 {
        Err(RateError::Negative)
    } else {
        Ok(kbps_of(mantissa(mt), shift_of(b)))
    }
}

proof fn lemma_trim_start_step(s: Seq<char>, i: int)
    requires
        0 <= i < s.len(),
        is_ws(s[i]),
    ensures
        trim_start(s.subrange(i, s.len() as int)) == trim_start(s.subrange(i + 1, s.len() as int)),
{
    assert(s.subrange(i, s.len() as int).skip(1) =~= s.subrange(i + 1, s.len() as int));
}

proof fn lemma_trim_end_step(s: Seq<char>, j: int)
    requires
        0 < j <= s.len(),
        is_ws(s[j - 1]),
    ensures
        trim_end(s.subrange(0, j)) == trim_end(s.subrange(0, j - 1)),
{
    assert(s.subrange(0, j).drop_last() =~= s.subrange(0, j - 1));
}

proof fn lemma_digits_value_bound(d: Seq<char>)
    requires
        forall|i: int| 0 <= i < d.len() ==> is_digit(#[trigger] d[i]),
    ensures
        digits_value(d) < pow10(d.len()),
    decreases d.len(),
{
    if d.len() > 0 {
        let p = d.drop_last();
        assert forall|i: int| 0 <= i < p.len() implies is_digit(#[trigger] p[i]) by {
            assert(p[i] == d[i]);
        }
        lemma_digits_value_bound(p);
        assert(is_digit(d[d.len() - 1]));
    }
}

fn pow10_exec(k: usize) -> (r: u128)
    requires
        k <= 30,
    ensures
        r == pow10(k as nat),
        1 <= r <= 1_000_000_000_000_000_000_000_000_000_000u128,
{
    let mut r: u128 = 1;
    let mut i: usize = 0;
    while i < k
        invariant
            i <= k <= 30,
            r == pow10(i as nat),
        decreases k - i,
    {
        proof {
            lemma_pow10_split(i as nat);
        }
        r = r * 10;
        i = i + 1;
    }
    proof {
        lemma_pow10_split(k as nat);
    }
    r
}

proof fn lemma_pow10_split(i: nat)
    requires
        i <= 30,
    ensures
        pow10(i) * pow10((30 - i) as nat) == 1_000_000_000_000_000_000_000_000_000_000nat,
        pow10(i) >= 1,
        pow10(i) <= 1_000_000_000_000_000_000_000_000_000_000nat,
        i < 30 ==> pow10(i + 1) <= 1_000_000_000_000_000_000_000_000_000_000nat,
    decreases i,
{
    reveal_with_fuel(pow10, 31);
    assert(pow10(30) == 1_000_000_000_000_000_000_000_000_000_000nat);
    lemma_pow10_mul(i, (30 - i) as nat);
    lemma_pow10_positive((30 - i) as nat);
    lemma_pow10_positive(i);
    assert(pow10(i) <= pow10(i) * pow10((30 - i) as nat)) by (nonlinear_arith)
        requires
            pow10((30 - i) as nat) >= 1,
    ;
    if i < 30 {
        lemma_pow10_mul(i + 1, (29 - i) as nat);
        lemma_pow10_positive((29 - i) as nat);
        assert(pow10(i + 1) <= pow10(i + 1) * pow10((29 - i) as nat)) by (nonlinear_arith)
            requires
                pow10((29 - i) as nat) >= 1,
        ;
    }
}

proof fn lemma_pow10_positive(k: nat)
    ensures
        pow10(k) >= 1,
    decreases k,
{
    if k > 0 {
        lemma_pow10_positive((k - 1) as nat);
    }
}

proof fn lemma_pow10_mul(a: nat, b: nat)
    ensures
        pow10(a) * pow10(b) == pow10(a + b),
    decreases a,
{
    if a > 0 {
        let a1 = (a - 1) as nat;
        lemma_pow10_mul(a1, b);
        assert(pow10(a1 + b + 1) == 10 * pow10(a1 + b));
        assert(a1 + b + 1 == a + b);
        assert(pow10(a) == 10 * pow10(a1));
        assert(pow10(a) * pow10(b) == 10 * (pow10(a1) * pow10(b))) by (nonlinear_arith)
            requires
                pow10(a) == 10 * pow10(a1),
        ;
        assert(pow10(a) * pow10(b) == 10 * pow10(a1 + b));
        assert(pow10(a) * pow10(b) == pow10(a + b));
    } else {
        assert(a == 0);
        assert(pow10(a) == 1);
        let pb = pow10(b);
        assert(1 * pb == pb);
    }
}

fn is_ws_exec(c: char) -> (r: bool)
    ensures
        r == is_ws(c),
{
    ('\u{9}' <= c && c <= '\u{d}') || c == ' ' || c == '\u{85}' || c == '\u{a0}' || c == '\u{1680}'
        || ('\u{2000}' <= c && c <= '\u{200a}') || c == '\u{2028}' || c == '\u{2029}' || c
        == '\u{202f}' || c == '\u{205f}' || c == '\u{3000}'
}

/// `chars` without leading and trailing blanks.
pub fn trim_chars(chars: &Vec<char>) -> (r: Vec<char>)
    ensures
        r@ == trimmed(chars@),
{
    let n = chars.len();
    let ghost s = chars@;
    let mut lo: usize = 0;
    assert(s.subrange(0, n as int) =~= s);
    while lo < n && is_ws_exec(chars[lo])
        invariant
            lo <= n == s.len(),
            chars@ == s,
            trim_start(s) == trim_start(s.subrange(lo as int, n as int)),
        decreases n - lo,
    {
        proof {
            lemma_trim_start_step(s, lo as int);
        }
        lo = lo + 1;
    }
    let ghost ts = s.subrange(lo as int, n as int);
    assert(trim_start(s) == ts) by {
        if ts.len() > 0 {
            assert(ts[0] == s[lo as int]);
        }
    }
    let mut hi: usize = n;
    assert(ts.subrange(0, hi - lo) =~= ts);
    while hi > lo && is_ws_exec(chars[hi - 1])
        invariant
            lo <= hi <= n == s.len(),
            chars@ == s,
            ts == s.subrange(lo as int, n as int),
            trim_end(ts) == trim_end(ts.subrange(0, hi - lo)),
        decreases hi,
    {
        proof {
            lemma_trim_end_step(ts, (hi - lo) as int);
        }
        hi = hi - 1;
    }
    let ghost t = ts.subrange(0, hi - lo);
    assert(trimmed(s) == t) by {
        if t.len() > 0 {
            assert(t.last() == s[hi - 1]);
        }
    }
    let mut out: Vec<char> = Vec::new();
    let mut i: usize = lo;
    while i < hi
        invariant
            lo <= i <= hi <= n == s.len(),
            chars@ == s,
            out@ == s.subrange(lo as int, i as int),
        decreases hi - i,
    {
        out.push(chars[i]);
        i = i + 1;
        assert(out@ =~= s.subrange(lo as int, i as int));
    }
    assert(t =~= s.subrange(lo as int, hi as int));
    out
}

/// Mantissas at least this large cap any rate at `u32::MAX` KiB/s.
pub const MANTISSA_CAP: u64 = 4194304;

pub open spec fn capped(v: nat) -> nat {
    if v < MANTISSA_CAP {
        v
    } else {
        MANTISSA_CAP as nat
    }
}

pub open spec fn all_digits(s: Seq<char>) -> bool {
    forall|i: int| 0 <= i < s.len() ==> is_digit(#[trigger] s[i])
}

/// `1024 * 0.s`, rounded down, computed from the last digit back.
spec fn scaled_floor(s: Seq<char>) -> nat
    decreases s.len(),
{
    if s.len() == 0 {
        0
    } else {
        (((s[0] as u32 - '0' as u32) as nat) * 1024 + scaled_floor(s.skip(1))) / 10
    }
}

proof fn lemma_digits_value_concat(a: Seq<char>, b: Seq<char>)
    ensures
        digits_value(a + b) == digits_value(a) * pow10(b.len()) + digits_value(b),
    decreases b.len(),
{
    if b.len() == 0 {
        assert(a + b =~= a);
        assert(pow10(0) == 1);
        assert(digits_value(b) == 0);
        let x = digits_value(a);
        assert(x * 1 == x);
    } else {
        let b1 = b.drop_last();
        lemma_digits_value_concat(a, b1);
        assert((a + b).drop_last() =~= a + b1);
        assert((a + b).last() == b.last());
        let d = ((b.last() as u32 - '0' as u32) as nat);
        let x = digits_value(a);
        let p = pow10(b1.len());
        let y = digits_value(b1);
        assert(pow10(b.len()) == 10 * p);
        assert(digits_value(b) == y * 10 + d);
        assert(digits_value(a + b) == digits_value(a + b1) * 10 + d);
        assert(digits_value(a + b) == x * pow10(b.len()) + digits_value(b)) by (nonlinear_arith)
            requires
                digits_value(a + b) == digits_value(a + b1) * 10 + d,
                digits_value(a + b1) == x * p + y,
                pow10(b.len()) == 10 * p,
                digits_value(b) == y * 10 + d,
        ;
    }
}

proof fn lemma_scaled_floor(s: Seq<char>)
    requires
        all_digits(s),
    ensures
        scaled_floor(s) == digits_value(s) * 1024 / pow10(s.len()),
    decreases s.len(),
{
    if s.len() > 0 {
        let r = s.skip(1);
        assert forall|i: int| 0 <= i < r.len() implies is_digit(#[trigger] r[i]) by {
            assert(r[i] == s[i + 1]);
        }
        lemma_scaled_floor(r);
        let h = seq![s[0]];
        assert(h + r =~= s);
        lemma_digits_value_concat(h, r);
        assert(h.drop_last() =~= Seq::<char>::empty());
        let d = ((s[0] as u32 - '0' as u32) as nat);
        assert(h.last() == s[0]);
        assert(digits_value(h.drop_last()) == 0);
        assert(digits_value(h) == d);
        let v = digits_value(r);
        let p = pow10(r.len());
        lemma_pow10_positive(r.len());
        assert(pow10(s.len()) == 10 * p);
        vstd::arithmetic::div_mod::lemma_hoist_over_denominator((v * 1024) as int, (d * 1024) as int, p);
        let x = (v * 1024 + d * 1024 * p) as int;
        assert(x == (d * 1024) * p + v * 1024) by (nonlinear_arith)
            requires
                x == v * 1024 + d * 1024 * p,
        ;
        vstd::arithmetic::div_mod::lemma_div_denominator(x, p as int, 10);
        assert(x == (d * p + v) * 1024) by (nonlinear_arith)
            requires
                x == v * 1024 + d * 1024 * p,
        ;
        assert((p as int) * 10 == 10 * p);
    }
}

proof fn lemma_pow10_mono(a: nat, b: nat)
    requires
        a <= b,
    ensures
        pow10(a) <= pow10(b),
{
    lemma_pow10_mul(a, (b - a) as nat);
    lemma_pow10_positive((b - a) as nat);
    lemma_pow10_positive(a);
    assert(pow10(a) <= pow10(a) * pow10((b - a) as nat)) by (nonlinear_arith)
        requires
            pow10((b - a) as nat) >= 1,
    ;
}

proof fn lemma_kbps_zero(k: int)
    ensures
        kbps_of(0, k) == 0,
{
    if k < 0 {
        lemma_pow10_positive((-k) as nat);
        assert(0nat * 1024 / pow10((-k) as nat) == 0) by (nonlinear_arith)
            requires
                pow10((-k) as nat) >= 1,
        ;
    } else {
        assert(0nat * 1024 * pow10(k as nat) == 0) by (nonlinear_arith);
    }
}

proof fn lemma_kbps_big(m: nat, k: int)
    requires
        m >= 1,
        k >= 10,
    ensures
        kbps_of(m, k) == u32::MAX,
{
    reveal_with_fuel(pow10, 11);
    lemma_pow10_mono(10, k as nat);
    let p = pow10(k as nat);
    assert(m * 1024 * p >= 1024 * 10000000000) by (nonlinear_arith)
        requires
            m >= 1,
            p >= 10000000000,
    ;
}

proof fn lemma_kbps_tiny(m: nat, nd: nat, j: int)
    requires
        m < pow10(nd),
        j >= nd + 4,
    ensures
        kbps_of(m, -j) == 0,
{
    reveal_with_fuel(pow10, 5);
    lemma_pow10_mul(nd, 4);
    lemma_pow10_mono(nd + 4, j as nat);
    let p = pow10(j as nat);
    assert(m * 1024 < p) by (nonlinear_arith)
        requires
            m < pow10(nd),
            pow10(nd) * 10000 <= p,
    ;
    assert(-(-j) == j);
    assert(m * 1024 / p == 0) by (nonlinear_arith)
        requires
            m * 1024 < p,
    ;
}

/// `min(digits_value(ds[..p]), MANTISSA_CAP)`.
fn capped_value(ds: &Vec<char>, p: usize) -> (r: u64)
    requires
        p <= ds@.len(),
        all_digits(ds@),
    ensures
        r == capped(digits_value(ds@.take(p as int))),
{
    let mut a: u64 = 0;
    let mut i: usize = 0;
    assert(ds@.take(0) =~= Seq::<char>::empty());
    while i < p
        invariant
            i <= p <= ds@.len(),
            all_digits(ds@),
            a == capped(digits_value(ds@.take(i as int))),
        decreases p - i,
    {
        let d = (ds[i] as u32 - '0' as u32) as u64;
        proof {
            assert(is_digit(ds@[i as int]));
            let t = ds@.take(i + 1);
            assert(t.drop_last() =~= ds@.take(i as int));
            assert(t.last() == ds@[i as int]);
        }
        let next = a * 10 + d;
        a = if next > MANTISSA_CAP {
            MANTISSA_CAP
        } else {
            next
        };
        i = i + 1;
    }
    a
}

/// `scaled_floor(ds[lo..hi])`, which stays below 1024.
fn scaled_floor_exec(ds: &Vec<char>, lo: usize, hi: usize) -> (r: u64)
    requires
        lo <= hi <= ds@.len(),
        all_digits(ds@),
    ensures
        r == scaled_floor(ds@.subrange(lo as int, hi as int)),
        r < 1024,
{
    let mut c: u64 = 0;
    let mut i: usize = hi;
    assert(ds@.subrange(hi as int, hi as int) =~= Seq::<char>::empty());
    while i > lo
        invariant
            lo <= i <= hi <= ds@.len(),
            all_digits(ds@),
            c == scaled_floor(ds@.subrange(i as int, hi as int)),
            c < 1024,
        decreases i,
    {
        i = i - 1;
        proof {
            assert(is_digit(ds@[i as int]));
            let t = ds@.subrange(i as int, hi as int);
            assert(t.skip(1) =~= ds@.subrange(i + 1, hi as int));
            assert(t[0] == ds@[i as int]);
        }
        c = ((ds[i] as u32 - '0' as u32) as u64 * 1024 + c) / 10;
    }
    c
}

/// A cap of `digits_value(ds) * 10^k` MiB/s in whole KiB/s.
fn scale_digits(ds: &Vec<char>, k: i128) -> (r: u32)
    requires
        all_digits(ds@),
        k > i128::MIN,
    ensures
        r == kbps_of(digits_value(ds@), k as int),
{
    let nd = ds.len();
    let ghost m = digits_value(ds@);
    let mc = capped_value(ds, nd);
    assert(ds@.take(nd as int) =~= ds@);
    proof {
        lemma_digits_value_bound(ds@);
    }
    if mc == 0 {
        proof {
            lemma_kbps_zero(k as int);
        }
        return 0;
    }
    if k >= 10 {
        proof {
            lemma_kbps_big(m, k as int);
        }
        return u32::MAX;
    }
    if k >= 0 {
        proof {
            lemma_pow10_split(k as nat);
            lemma_pow10_mono(k as nat, 9);
            reveal_with_fuel(pow10, 10);
        }
        if mc >= MANTISSA_CAP {
            proof {
                lemma_pow10_positive(k as nat);
                assert(m * 1024 * pow10(k as nat) >= 4194304 * 1024) by (nonlinear_arith)
                    requires
                        m >= 4194304,
                        pow10(k as nat) >= 1,
                ;
            }
            return u32::MAX;
        }
        let pk = pow10_exec(k as usize);
        assert((mc as u128) * 1024 * pk <= 4194304u128 * 1024 * 1000000000) by (nonlinear_arith)
            requires
                mc < 4194304,
                pk <= 1000000000,
        ;
        let v: u128 = (mc as u128) * 1024 * pk;
        return if v > 0xffff_ffffu128 {
            u32::MAX
        } else {
            v as u32
        };
    }
    let j: i128 = -k;
    if j >= nd as i128 + 4 {
        proof {
            lemma_kbps_tiny(m, nd as nat, j as int);
        }
        return 0;
    }
    proof {
        lemma_pow10_positive(j as nat);
        assert((-(k as int)) as nat == j as nat);
    }
    if j <= nd as i128 {
        let p = nd - (j as usize);
        let a = capped_value(ds, p);
        let c = scaled_floor_exec(ds, p, nd);
        proof {
            let head = ds@.take(p as int);
            let tail = ds@.subrange(p as int, nd as int);
            assert(head + tail =~= ds@);
            lemma_digits_value_concat(head, tail);
            assert forall|i: int| 0 <= i < tail.len() implies is_digit(#[trigger] tail[i]) by {
                assert(tail[i] == ds@[p + i]);
            }
            lemma_scaled_floor(tail);
            let pj = pow10(j as nat);
            assert(tail.len() == j);
            let av = digits_value(head);
            let bv = digits_value(tail);
            vstd::arithmetic::div_mod::lemma_hoist_over_denominator((bv * 1024) as int, (av * 1024) as int, pj);
            assert((av * pj + bv) * 1024 == bv * 1024 + (av * 1024) * pj) by (nonlinear_arith);
            assert(m * 1024 / pj == av * 1024 + c);
        }
        if a >= MANTISSA_CAP {
            return u32::MAX;
        }
        let v: u64 = a * 1024 + c;
        return if v > 0xffff_ffffu64 {
            u32::MAX
        } else {
            v as u32
        };
    }
    // Fewer digits than places to shift: the digits all fall below the point.
    let mut c = scaled_floor_exec(ds, 0, nd);
    let extra: usize = (j - nd as i128) as usize;
    proof {
        assert(ds@.subrange(0, nd as int) =~= ds@);
        lemma_scaled_floor(ds@);
        lemma_pow10_positive(nd as nat);
        assert(pow10(0) == 1);
        let base = m * 1024 / pow10(nd as nat);
        assert(base / 1 == base);
    }
    let mut t: usize = 0;
    while t < extra
        invariant
            t <= extra,
            extra + nd == j,
            c as nat == (m * 1024 / pow10(nd as nat)) / pow10(t as nat),
            pow10(nd as nat) >= 1,
            c < 1024,
        decreases extra - t,
    {
        proof {
            lemma_pow10_positive(t as nat);
            let base = m * 1024 / pow10(nd as nat);
            let pt = pow10(t as nat);
            assert(pt > 0);
            assert(base >= 0);
            vstd::arithmetic::div_mod::lemma_div_denominator(base as int, pt as int, 10);
            assert(pow10((t + 1) as nat) == 10 * pow10(t as nat));
            assert((pow10(t as nat) as int) * 10 == 10 * pow10(t as nat));
        }
        c = c / 10;
        t = t + 1;
    }
    proof {
        lemma_pow10_positive(extra as nat);
        vstd::arithmetic::div_mod::lemma_div_denominator((m * 1024) as int, pow10(nd as nat) as int, pow10(extra as nat) as int);
        lemma_pow10_mul(nd as nat, extra as nat);
    }
    c as u32
}

/// The digits, fraction-digit count and point count of `chars[lo..hi]`,
/// and whether it holds only digits and points.
fn scan_numeral(chars: &Vec<char>, lo: usize, hi: usize) -> (r: (Vec<char>, usize, usize, bool))
    requires
        lo <= hi <= chars@.len(),
    ensures
        ({
            let mt = chars@.subrange(lo as int, hi as int);
            &&& r.0@ == digits_of(mt)
            &&& r.1 == fraction_digits(mt)
            &&& r.2 == points_in(mt)
            &&& r.3 == (forall|x: int| 0 <= x < mt.len() ==> is_digit(#[trigger] mt[x]) || mt[x] == '.')
            &&& r.1 <= r.0@.len() <= mt.len()
        }),
{
    let ghost mt = chars@.subrange(lo as int, hi as int);
    let mut ds: Vec<char> = Vec::new();
    let mut frac: usize = 0;
    let mut seen_point = false;
    let mut points: usize = 0;
    let mut bad = false;
    let mut j: usize = lo;
    while j < hi
        invariant
            lo <= j <= hi <= chars@.len(),
            mt == chars@.subrange(lo as int, hi as int),
            ds@ == digits_of(mt.take(j - lo)),
            points == points_in(mt.take(j - lo)),
            seen_point == mt.take(j - lo).contains('.'),
            frac == fraction_digits(mt.take(j - lo)),
            bad == exists|x: int| 0 <= x < j - lo && !(is_digit(mt[x]) || mt[x] == '.'),
            ds@.len() <= j - lo,
            frac <= ds@.len(),
            points <= j - lo,
        decreases hi - j,
    {
        let c = chars[j];
        let ghost p = mt.take(j - lo);
        let ghost q = mt.take(j - lo + 1);
        proof {
            assert(q.drop_last() =~= p);
            assert(q.last() == c);
            reveal(Seq::filter);
            assert(digits_of(q) == if is_digit(c) {
                digits_of(p).push(c)
            } else {
                digits_of(p)
            });
            assert(points_in(q) == points_in(p) + if c == '.' {
                1nat
            } else {
                0nat
            });
            assert(q.contains('.') == (p.contains('.') || c == '.')) by {
                if c == '.' {
                    assert(q[q.len() - 1] == '.');
                }
                if q.contains('.') && c != '.' {
                    let x = choose|x: int| 0 <= x < q.len() && q[x] == '.';
                    assert(p[x] == '.');
                }
                if p.contains('.') {
                    let x = choose|x: int| 0 <= x < p.len() && p[x] == '.';
                    assert(q[x] == '.');
                }
            }
        }
        if '0' <= c && c <= '9' {
            ds.push(c);
            if seen_point {
                frac = frac + 1;
            }
        } else if c == '.' {
            seen_point = true;
            points = points + 1;
        } else {
            bad = true;
        }
        proof {
            if !(is_digit(c) || c == '.') {
                assert(mt[j - lo] == c);
            }
        }
        j = j + 1;
    }
    assert(mt.take(hi - lo) =~= mt);
    (ds, frac, points, !bad)
}

/// Reads `chars[lo..hi]` as an exponent: `None` when it is none, else its
/// sign (`true` for minus) and its magnitude, capped at `cap`.
fn scan_exponent(chars: &Vec<char>, lo: usize, hi: usize, cap: u128) -> (r: Option<(bool, u128)>)
    requires
        lo <= hi <= chars@.len(),
        cap <= 0x1_0000_0000_0000_0000_0000u128,
    ensures
        ({
            let x = chars@.subrange(lo as int, hi as int);
            let v = digits_value(exponent_digits(x));
            &&& r is None <==> !is_exponent(x)
            &&& r is Some ==> r->Some_0.0 == (x[0] == '-') && r->Some_0.1 == (if v < cap {
                v
            } else {
                cap as nat
            })
        }),
{
    let ghost x = chars@.subrange(lo as int, hi as int);
    let mut k: usize = lo;
    let mut negative = false;
    if k < hi && (chars[k] == '+' || chars[k] == '-') {
        negative = chars[k] == '-';
        k = k + 1;
    }
    let ghost xd = chars@.subrange(k as int, hi as int);
    assert(xd =~= exponent_digits(x));
    if k >= hi {
        assert(exponent_digits(x).len() == 0);
        return None;
    }
    let k0 = k;
    let mut e: u128 = 0;
    assert(xd.take(0) =~= Seq::<char>::empty());
    while k < hi
        invariant
            lo <= k0 <= k <= hi <= chars@.len(),
            xd == chars@.subrange(k0 as int, hi as int),
            xd == exponent_digits(x),
            x == chars@.subrange(lo as int, hi as int),
            cap <= 0x1_0000_0000_0000_0000_0000u128,
            e <= cap,
            forall|t: int| 0 <= t < k - k0 ==> is_digit(#[trigger] xd[t]),
            e == (if digits_value(xd.take(k - k0)) < cap {
                digits_value(xd.take(k - k0))
            } else {
                cap as nat
            }),
        decreases hi - k,
    {
        let c = chars[k];
        assert(xd[k - k0] == c);
        if !('0' <= c && c <= '9') {
            assert(!is_digit(exponent_digits(x)[k - k0]));
            return None;
        }
        proof {
            let t = xd.take(k - k0 + 1);
            assert(t.drop_last() =~= xd.take(k - k0));
            assert(t.last() == c);
        }
        let next = e * 10 + (c as u32 - '0' as u32) as u128;
        e = if next > cap {
            cap
        } else {
            next
        };
        k = k + 1;
    }
    assert(xd.take(hi - k0) =~= xd);
    Some((negative, e))
}

proof fn lemma_first_mark(b: Seq<char>, i: int)
    requires
        0 <= i <= b.len(),
        forall|t: int| 0 <= t < i ==> !is_mark(#[trigger] b[t]),
        i == b.len() || is_mark(b[i]),
    ensures
        first_mark(b) == i,
    decreases i,
{
    if i > 0 {
        let r = b.skip(1);
        assert forall|t: int| 0 <= t < i - 1 implies !is_mark(#[trigger] r[t]) by {
            assert(r[t] == b[t + 1]);
        }
        if i < b.len() {
            assert(r[i - 1] == b[i]);
        }
        lemma_first_mark(r, i - 1);
        assert(!is_mark(b[0]));
    }
}

/// Reads a cap in MiB/s and gives it in whole KiB/s (rounded down, at most
/// `u32::MAX`).
pub fn parse_rate_kbps(input: &str) -> (r: Result<u32, RateError>)
    ensures
        r == rate_of(input@),
{
    let chars = trim_chars(&crate::names::chars_of(input));
    let ghost s = chars@;
    let n = chars.len();
    // An optional sign.
    let mut negative = false;
    let mut start: usize = 0;
    if n > 0 && (chars[0] == '-' || chars[0] == '+') {
        negative = chars[0] == '-';
        start = 1;
    }
    let ghost b = s.subrange(start as int, n as int);
    assert(b =~= unsigned_part(s));
    // The first exponent mark.
    let mut f: usize = start;
    while f < n && !(chars[f] == 'e' || chars[f] == 'E')
        invariant
            start <= f <= n == s.len(),
            chars@ == s,
            forall|t: int| start <= t < f ==> !is_mark(#[trigger] s[t]),
        decreases n - f,
    {
        f = f + 1;
    }
    proof {
        assert forall|t: int| 0 <= t < f - start implies !is_mark(#[trigger] b[t]) by {
            assert(b[t] == s[start + t]);
        }
        if f < n {
            assert(b[f - start] == s[f as int]);
        }
        lemma_first_mark(b, f - start);
    }
    let ghost mt = b.take(f - start);
    assert(mt =~= s.subrange(start as int, f as int));
    // The numeral before it.
    let (ds, frac, points, sound) = scan_numeral(&chars, start, f);
    if !sound || points > 1 || ds.len() == 0 {
        return Err(RateError::Malformed);
    }
    // The exponent after it, capped where larger ones no longer matter.
    let cap: u128 = n as u128 + 20;
    let mut e: u128 = 0;
    let mut exp_negative = false;
    if f < n {
        assert(b.skip(f - start + 1) =~= s.subrange(f + 1, n as int));
        match scan_exponent(&chars, f + 1, n, cap) {
            None => {
                return Err(RateError::Malformed);
            },
            Some((neg, v)) => {
                exp_negative = neg;
                e = v;
            },
        }
    }
    proof {
        lemma_digit_chars_bound(mt);
    }
    let mc = capped_value(&ds, ds.len());
    assert(ds@.take(ds@.len() as int) =~= ds@);
    if negative && mc > 0 {
        return Err(RateError::Negative);
    }
    let signed: i128 = if exp_negative {
        -(e as i128)
    } else {
        e as i128
    };
    let shift: i128 = signed - frac as i128;
    proof {
        let m = digits_value(ds@);
        let fd = fraction_digits(mt);
        lemma_digits_value_bound(ds@);
        if f < n {
            let x = b.skip(f - start + 1);
            let ev = digits_value(exponent_digits(x));
            let truth = exponent_value(x) - fd;
            if ev >= cap && m > 0 {
                if exp_negative {
                    lemma_kbps_tiny(m, ds@.len(), -truth);
                    lemma_kbps_tiny(m, ds@.len(), -(shift as int));
                } else {
                    lemma_kbps_big(m, truth);
                    lemma_kbps_big(m, shift as int);
                }
            }
            if m == 0 {
                lemma_kbps_zero(truth);
                lemma_kbps_zero(shift as int);
            }
        }
    }
    Ok(scale_digits(&ds, shift))
}

proof fn lemma_digit_chars_bound(s: Seq<char>)
    ensures
        forall|i: int| 0 <= i < digits_of(s).len() ==> is_digit(#[trigger] digits_of(s)[i]),
{
    broadcast use vstd::seq_lib::group_filter_ensures;

}

} // verus!
