//! Runtime numbers.
//!
//! The language has a single numeric kind. It is represented here as a
//! decimal fixed-point value: a signed 64-bit mantissa holding the number
//! scaled by `SCALE`, so six fractional digits are carried exactly.
//! Arithmetic that would leave the mantissa range reports overflow instead
//! of wrapping; division and remainder truncate toward zero, matching the
//! `/` and `%` of the surface language.
use vstd::prelude::*;

verus! {

/// Mantissa units per whole number: six decimal fractional digits.
pub const SCALE: i64 = 1_000_000;

/// A runtime number: the value is `m / SCALE`.
#[derive(Clone, Copy, PartialEq, Eq, Structural, Debug)]
pub struct Num {
    pub m: i64,
}

impl View for Num {
    type V = int;

    open spec fn view(&self) -> int {
        self.m as int
    }
}

pub open spec fn spec_abs(a: int) -> int {
    if a < 0 {
        -a
    } else {
        a
    }
}

/// Division truncating toward zero, as the language's `/` rounds.
pub open spec fn trunc_div(a: int, b: int) -> int {
    if (a < 0) == (b < 0) {
        spec_abs(a) / spec_abs(b)
    } else {
        -(spec_abs(a) / spec_abs(b))
    }
}

/// Remainder paired with `trunc_div`: keeps the sign of the dividend.
pub open spec fn trunc_rem(a: int, b: int) -> int {
    a - b * trunc_div(a, b)
}

pub open spec fn in_mantissa_range(v: int) -> bool {
    i64::MIN <= v <= i64::MAX
}

/// Magnitude of a mantissa; covers `i64::MIN` exactly.
fn abs_mag(a: i64) -> (r: u64)
    ensures
        r as int == spec_abs(a as int),
{
    if a >= 0 {
        a as u64
    } else {
        (-(a as i128)) as u64
    }
}

/// Reassemble a sign and magnitude into a mantissa when it fits.
fn from_sign_mag(neg: bool, mag: u128) -> (r: Option<Num>)
    ensures
        ({
            let v = if neg {
                -(mag as int)
            } else {
                mag as int
            };
            match r {
                Some(n) => n@ == v && in_mantissa_range(v),
                None => !in_mantissa_range(v),
            }
        }),
{
    if neg {
        if mag <= 9223372036854775808u128 {
            Some(Num { m: (-(mag as i128)) as i64 })
        } else {
            None
        }
    } else {
        if mag <= 9223372036854775807u128 {
            Some(Num { m: mag as i64 })
        } else {
            None
        }
    }
}

proof fn lemma_abs_mul(a: int, b: int)
    ensures
        spec_abs(a * b) == spec_abs(a) * spec_abs(b),
        (a * b < 0) <==> ((a < 0) != (b < 0)) && a != 0 && b != 0,
    decreases 0int,
{
    assert(spec_abs(a * b) == spec_abs(a) * spec_abs(b) && ((a * b < 0) <==> ((a < 0) != (b < 0))
        && a != 0 && b != 0)) by (nonlinear_arith);
}

impl Num {
    pub open spec fn spec_from_whole(w: int) -> int {
        w * (SCALE as int)
    }

    /// The number `w` (a whole value), when it fits.
    pub fn from_whole(w: i64) -> (r: Option<Num>)
        ensures
            match r {
                Some(n) => n@ == Self::spec_from_whole(w as int) && in_mantissa_range(
                    Self::spec_from_whole(w as int),
                ),
                None => !in_mantissa_range(Self::spec_from_whole(w as int)),
            },
    {
        proof {
            assert((w as i128) * (SCALE as i128) <= 0x8000000000000000i128 * 1_000_000i128
                && (w as i128) * (SCALE as i128) >= -(0x8000000000000000i128 * 1_000_000i128))
                by (nonlinear_arith)
                requires
                    -0x8000000000000000i128 <= w as i128 <= 0x8000000000000000i128,
            ;
        }
        let p: i128 = (w as i128) * (SCALE as i128);
        if -9223372036854775808i128 <= p && p <= 9223372036854775807i128 {
            Some(Num { m: p as i64 })
        } else {
            None
        }
    }

    pub fn checked_add(self, other: Num) -> (r: Option<Num>)
        ensures
            match r {
                Some(n) => n@ == self@ + other@ && in_mantissa_range(self@ + other@),
                None => !in_mantissa_range(self@ + other@),
            },
    {
        let s: i128 = self.m as i128 + other.m as i128;
        if -9223372036854775808i128 <= s && s <= 9223372036854775807i128 {
            Some(Num { m: s as i64 })
        } else {
            None
        }
    }

    pub fn checked_sub(self, other: Num) -> (r: Option<Num>)
        ensures
            match r {
                Some(n) => n@ == self@ - other@ && in_mantissa_range(self@ - other@),
                None => !in_mantissa_range(self@ - other@),
            },
    {
        let s: i128 = self.m as i128 - other.m as i128;
        if -9223372036854775808i128 <= s && s <= 9223372036854775807i128 {
            Some(Num { m: s as i64 })
        } else {
            None
        }
    }

    /// The product; the exact product of the values is `(a*b)/SCALE^2`,
    /// so the mantissa is `a*b/SCALE` truncated toward zero.
    pub fn checked_mul(self, other: Num) -> (r: Option<Num>)
        ensures
            ({
                let v = trunc_div(self@ * other@, SCALE as int);
                match r {
                    Some(n) => n@ == v && in_mantissa_range(v),
                    None => !in_mantissa_range(v),
                }
            }),
    {
        let neg = (self.m < 0) != (other.m < 0);
        let am = abs_mag(self.m) as u128;
        let bm = abs_mag(other.m) as u128;
        proof {
            assert(am * bm <= 0x8000000000000000u128 * 0x8000000000000000u128)
                by (nonlinear_arith)
                requires
                    am <= 0x8000000000000000u128,
                    bm <= 0x8000000000000000u128,
            ;
            lemma_abs_mul(self@, other@);
        }
        let p: u128 = am * bm;
        let q: u128 = p / 1_000_000u128;
        proof {
            let x = self@ * other@;
            assert(spec_abs(x) == p);
            if x < 0 {
                assert(neg);
                assert(trunc_div(x, SCALE as int) == -(q as int));
            } else {
                if neg {
                    assert(x == 0);
                    assert(p == 0);
                }
                assert(trunc_div(x, SCALE as int) == q as int);
            }
        }
        from_sign_mag(neg, q)
    }

    /// The quotient truncated toward zero, scaled back up by `SCALE`.
    pub fn checked_div(self, other: Num) -> (r: Option<Num>)
        requires
            other@ != 0,
        ensures
            ({
                let v = trunc_div(self@ * (SCALE as int), other@);
                match r {
                    Some(n) => n@ == v && in_mantissa_range(v),
                    None => !in_mantissa_range(v),
                }
            }),
    {
        let neg = (self.m < 0) != (other.m < 0);
        let am = abs_mag(self.m) as u128 * 1_000_000u128;
        let bm = abs_mag(other.m) as u128;
        let q: u128 = am / bm;
        proof {
            let x = self@ * (SCALE as int);
            assert(spec_abs(self@ * 1_000_000) == spec_abs(self@) * 1_000_000 && ((self@
                * 1_000_000 < 0) <==> self@ < 0) && ((self@ * 1_000_000 == 0) <==> self@ == 0))
                by (nonlinear_arith);
            assert(spec_abs(x) == am);
            if self@ == 0 {
                assert(q == 0);
                assert(trunc_div(x, other@) == 0);
            } else if self@ < 0 {
                if other@ < 0 {
                    assert(!neg);
                    assert(trunc_div(x, other@) == q as int);
                } else {
                    assert(neg);
                    assert(trunc_div(x, other@) == -(q as int));
                }
            } else {
                if other@ < 0 {
                    assert(neg);
                    assert(trunc_div(x, other@) == -(q as int));
                } else {
                    assert(!neg);
                    assert(trunc_div(x, other@) == q as int);
                }
            }
        }
        from_sign_mag(neg, q)
    }

    /// The remainder keeps the dividend's sign and always fits.
    pub fn rem(self, other: Num) -> (r: Num)
        requires
            other@ != 0,
        ensures
            r@ == trunc_rem(self@, other@),
    {
        let am = abs_mag(self.m) as u128;
        let bm = abs_mag(other.m) as u128;
        let rm: u128 = am % bm;
        proof {
            lemma_trunc_rem_mag(self@, other@);
            assert(rm < bm);
        }
        if self.m < 0 {
            Num { m: (-(rm as i128)) as i64 }
        } else {
            Num { m: rm as i64 }
        }
    }

    /// Whole part, truncated toward zero (what a loop count uses).
    pub fn whole_part(self) -> (r: i64)
        ensures
            r as int == trunc_div(self@, SCALE as int),
    {
        let am = abs_mag(self.m);
        let q: u64 = am / 1_000_000u64;
        if self.m < 0 {
            (-(q as i128)) as i64
        } else {
            q as i64
        }
    }
}

pub open spec fn is_digit_char(c: char) -> bool {
    '0' <= c && c <= '9'
}

pub open spec fn digit_char(d: int) -> char {
    ((48 + d) as u8) as char
}

pub open spec fn digit_char_val(c: char) -> int {
    c as int - 48
}

/// Value of an unsigned digit string, most significant first.
pub open spec fn digits_val(s: Seq<char>) -> int
    decreases s.len(),
{
    if s.len() == 0 {
        0
    } else {
        digits_val(s.drop_last()) * 10 + digit_char_val(s.last())
    }
}

pub open spec fn all_digits(s: Seq<char>) -> bool {
    forall|i: int| 0 <= i < s.len() ==> is_digit_char(s[i])
}

/// The fractional digits that count: the first six, zero-padded.
/// Digits beyond the sixth are dropped — the fixed-point mantissa
/// carries six fractional digits exactly, no more.
pub open spec fn pad_frac6(s: Seq<char>) -> Seq<char> {
    if s.len() >= 6 {
        s.take(6)
    } else {
        s + Seq::new((6 - s.len()) as nat, |i: int| '0')
    }
}

/// Mantissa of the literal written `ip . fp` (both digit strings).
pub open spec fn literal_mant(ip: Seq<char>, fp: Seq<char>) -> int {
    digits_val(ip) * 1_000_000 + digits_val(pad_frac6(fp))
}

pub proof fn lemma_digits_val_bounds(s: Seq<char>)
    requires
        all_digits(s),
    ensures
        digits_val(s) >= 0,
        forall|i: int| 0 <= i <= s.len() ==> digits_val(s) >= digits_val(#[trigger] s.take(i)),
    decreases s.len(),
{
    if s.len() == 0 {
        assert(forall|i: int|
            0 <= i <= s.len() ==> #[trigger] s.take(i) =~= s);
    } else {
        assert(s.drop_last() =~= s.take(s.len() - 1));
        assert(all_digits(s.drop_last()));
        lemma_digits_val_bounds(s.drop_last());
        assert(is_digit_char(s.last()));
        assert(digit_char_val(s.last()) >= 0);
        assert(digits_val(s.drop_last()) * 10 >= digits_val(s.drop_last())) by (nonlinear_arith)
            requires
                digits_val(s.drop_last()) >= 0,
        ;
        assert forall|i: int| 0 <= i <= s.len() implies digits_val(s) >= digits_val(
            #[trigger] s.take(i),
        ) by {
            if i == s.len() {
                assert(s.take(i) =~= s);
            } else {
                assert(s.drop_last().take(i) =~= s.take(i));
            }
        }
    }
}

/// Parse the digit ranges `[istart, iend)` (whole part) and
/// `[fstart, fend)` (fraction) of `src` into a number.
pub fn mantissa_of_literal(src: &Vec<char>, istart: usize, iend: usize, fstart: usize, fend: usize)
    -> (r: Option<Num>)
    requires
        istart <= iend <= src@.len(),
        fstart <= fend <= src@.len(),
        all_digits(src@.subrange(istart as int, iend as int)),
        all_digits(src@.subrange(fstart as int, fend as int)),
    ensures
        ({
            let m = literal_mant(
                src@.subrange(istart as int, iend as int),
                src@.subrange(fstart as int, fend as int),
            );
            match r {
                Some(n) => n@ == m && in_mantissa_range(m),
                None => !in_mantissa_range(m),
            }
        }),
{
    let ghost ip = src@.subrange(istart as int, iend as int);
    let ghost fp = src@.subrange(fstart as int, fend as int);
    proof {
        lemma_digits_val_bounds(ip);
        lemma_digits_val_bounds(fp);
    }
    let mut acc: u128 = 0;
    let mut i: usize = istart;
    while i < iend
        invariant
            istart <= i <= iend,
            acc as int == digits_val(ip.take(i - istart)),
            acc <= 0x7fffffffffffffffu128,
        decreases iend - i,
    {
        let d = src[i];
        proof {
            assert(ip[i - istart] == src@[i as int]);
            assert(is_digit_char(d));
            assert(ip.take(i - istart + 1).drop_last() =~= ip.take(i - istart));
        }
        acc = acc * 10 + (d as u128 - 48);
        i = i + 1;
        if acc > 0x7fffffffffffffffu128 {
            proof {
                assert(digits_val(ip) >= digits_val(ip.take(i - istart)));
                assert(digits_val(ip) * 1_000_000 >= digits_val(ip)) by (nonlinear_arith)
                    requires
                        digits_val(ip) >= 0,
                ;
                assert(digits_val(pad_frac6(fp)) >= 0) by {
                    lemma_pad_frac6_digits(fp);
                    lemma_digits_val_bounds(pad_frac6(fp));
                };
            }
            return None;
        }
    }
    proof {
        assert(ip.take(iend - istart) =~= ip);
    }
    let mut frac: u128 = 0;
    let mut t: usize = 0;
    proof {
        lemma_pad_frac6_digits(fp);
    }
    while t < 6
        invariant
            0 <= t <= 6,
            frac as int == digits_val(pad_frac6(fp).take(t as int)),
            frac < pow10(t as nat),
        decreases 6 - t,
    {
        proof {
            let padded = pad_frac6(fp);
            assert(padded.len() == 6);
            assert(padded.take(t + 1).drop_last() =~= padded.take(t as int));
            if t < fend - fstart {
                assert(padded[t as int] == fp[t as int]);
                assert(fp[t as int] == src@[fstart + t]);
                assert(is_digit_char(fp[t as int]));
            } else {
                assert(padded[t as int] == '0');
            }
            lemma_digits_val_bounds(padded.take(t + 1));
            lemma_pow10_mono(t as nat, 5);
            lemma_pow10_six();
        }
        let d: u128 = if t < fend - fstart {
            src[fstart + t] as u128 - 48
        } else {
            0
        };
        frac = frac * 10 + d;
        t = t + 1;
    }
    proof {
        assert(pad_frac6(fp).take(6) =~= pad_frac6(fp));
        lemma_pow10_six();
    }
    let mant: u128 = acc * 1_000_000u128 + frac;
    if mant <= 0x7fffffffffffffffu128 {
        Some(Num { m: mant as i64 })
    } else {
        None
    }
}

pub open spec fn pow10(k: nat) -> nat
    decreases k,
{
    if k == 0 {
        1
    } else {
        10 * pow10((k - 1) as nat)
    }
}

proof fn lemma_pow10_mono(a: nat, b: nat)
    requires
        a <= b,
    ensures
        pow10(a) <= pow10(b),
        pow10(a) >= 1,
    decreases b,
{
    if b == 0 {
    } else if a == b {
        lemma_pow10_mono(0, (b - 1) as nat);
    } else {
        lemma_pow10_mono(a, (b - 1) as nat);
    }
}

proof fn lemma_pow10_six()
    ensures
        pow10(5) == 100000,
        pow10(6) == 1000000,
{
    reveal_with_fuel(pow10, 8);
}

/// Padding a digit string keeps it a digit string.
pub proof fn lemma_pad_frac6_digits(s: Seq<char>)
    requires
        all_digits(s),
    ensures
        all_digits(pad_frac6(s)),
        pad_frac6(s).len() == 6,
{
    assert(is_digit_char('0'));
}

/// A literal's mantissa is never negative.
pub proof fn lemma_literal_mant_nonneg(ip: Seq<char>, fp: Seq<char>)
    requires
        all_digits(ip),
        all_digits(fp),
    ensures
        literal_mant(ip, fp) >= 0,
{
    lemma_digits_val_bounds(ip);
    lemma_pad_frac6_digits(fp);
    lemma_digits_val_bounds(pad_frac6(fp));
    assert(digits_val(ip) * 1_000_000 >= 0) by (nonlinear_arith)
        requires
            digits_val(ip) >= 0,
    ;
}

/// Decimal digits of `n`, most significant first, no leading zeros.
pub open spec fn dec_str(n: nat) -> Seq<char>
    decreases n,
{
    if n < 10 {
        seq![digit_char(n as int)]
    } else {
        dec_str(n / 10).push(digit_char((n % 10) as int))
    }
}

/// Exactly `k` decimal digits of `n mod 10^k`, zero-padded.
pub open spec fn fixed_digits(n: nat, k: nat) -> Seq<char>
    decreases k,
{
    if k == 0 {
        Seq::empty()
    } else {
        fixed_digits(n / 10, (k - 1) as nat).push(digit_char((n % 10) as int))
    }
}

/// Trailing `'0'` characters removed.
pub open spec fn strip_zeros(s: Seq<char>) -> Seq<char>
    decreases s.len(),
{
    if s.len() > 0 && s.last() == '0' {
        strip_zeros(s.drop_last())
    } else {
        s
    }
}

/// Display form of a number with mantissa `m`: optional sign, whole
/// part, and the non-zero fractional digits after a dot.
pub open spec fn spec_num_chars(m: int) -> Seq<char> {
    let a = spec_abs(m) as nat;
    let ip = a / 1_000_000;
    let fp = a % 1_000_000;
    (if m < 0 {
        seq!['-']
    } else {
        Seq::<char>::empty()
    }) + dec_str(ip) + (if fp == 0 {
        Seq::<char>::empty()
    } else {
        seq!['.'] + strip_zeros(fixed_digits(fp, 6))
    })
}

fn digit_char_of(d: u64) -> (c: char)
    requires
        d < 10,
    ensures
        c == digit_char(d as int),
{
    (48u8 + (d as u8)) as char
}

fn push_dec_digits(out: &mut Vec<char>, n: u64)
    ensures
        final(out)@ == old(out)@ + dec_str(n as nat),
    decreases n,
{
    if n < 10 {
        out.push(digit_char_of(n));
    } else {
        push_dec_digits(out, n / 10);
        out.push(digit_char_of(n % 10));
    }
}

fn push_fixed_digits(out: &mut Vec<char>, n: u64, k: u64)
    ensures
        final(out)@ == old(out)@ + fixed_digits(n as nat, k as nat),
    decreases k,
{
    if k == 0 {
    } else {
        push_fixed_digits(out, n / 10, k - 1);
        out.push(digit_char_of(n % 10));
    }
}

/// The decimal text of a machine integer.
pub fn dec_string(n: u64) -> (s: String)
    ensures
        s@ == dec_str(n as nat),
{
    let mut v: Vec<char> = Vec::new();
    push_dec_digits(&mut v, n);
    crate::text::chars_to_string(&v)
}

impl Num {
    /// Display characters of this number.
    pub fn to_chars(self) -> (v: Vec<char>)
        ensures
            v@ == spec_num_chars(self@),
    {
        let mut out: Vec<char> = Vec::new();
        if self.m < 0 {
            out.push('-');
        }
        let am = abs_mag(self.m);
        let ip = am / 1_000_000u64;
        let fp = am % 1_000_000u64;
        push_dec_digits(&mut out, ip);
        if fp != 0 {
            out.push('.');
            let ghost pre = out@;
            push_fixed_digits(&mut out, fp, 6);
            let ghost d6 = fixed_digits(fp as nat, 6);
            let ghost cur = d6;
            proof {
                assert(out@ == pre + cur);
            }
            loop
                invariant
                    out@ == pre + cur,
                    strip_zeros(cur) == strip_zeros(d6),
                    pre.len() >= 1,
                    pre.last() == '.',
                decreases cur.len(),
            {
                if out[out.len() - 1] == '0' {
                    proof {
                        assert(cur.len() > 0);
                        assert(cur.last() == '0');
                    }
                    out.pop();
                    proof {
                        cur = cur.drop_last();
                        assert(out@ == pre + cur);
                    }
                } else {
                    proof {
                        if cur.len() > 0 {
                            assert(cur.last() != '0');
                            assert(strip_zeros(cur) == cur);
                        } else {
                            assert(strip_zeros(cur) == cur);
                        }
                    }
                    break ;
                }
            }
            proof {
                assert(out@ == pre + strip_zeros(d6));
            }
        }
        out
    }
}

/// The truncating remainder equals the remainder of the magnitudes,
/// carrying the dividend's sign.
proof fn lemma_trunc_rem_mag(a: int, b: int)
    requires
        b != 0,
    ensures
        trunc_rem(a, b) == if a < 0 {
            -(spec_abs(a) % spec_abs(b))
        } else {
            spec_abs(a) % spec_abs(b)
        },
        0 <= spec_abs(a) % spec_abs(b) < spec_abs(b),
{
    let am = spec_abs(a);
    let bm = spec_abs(b);
    vstd::arithmetic::div_mod::lemma_fundamental_div_mod(am, bm);
    vstd::arithmetic::div_mod::lemma_mod_bound(am, bm);
    let q = am / bm;
    assert(am == bm * q + am % bm);
    if a >= 0 && b > 0 {
        assert(a - b * trunc_div(a, b) == am - bm * q);
    } else if a >= 0 && b < 0 {
        assert(trunc_div(a, b) == -q);
        assert(b * (-q) == -(b * q)) by (nonlinear_arith);
        assert(-(b * q) == bm * q) by (nonlinear_arith)
            requires
                b < 0,
                bm == -b,
        ;
        assert(a - b * trunc_div(a, b) == am - bm * q);
    } else if a < 0 && b > 0 {
        assert(trunc_div(a, b) == -q);
        assert(b * (-q) == -(b * q)) by (nonlinear_arith);
        assert(a - b * trunc_div(a, b) == -am + bm * q);
    } else {
        assert(trunc_div(a, b) == q);
        assert(b * q == -(bm * q)) by (nonlinear_arith)
            requires
                b < 0,
                bm == -b,
        ;
        assert(a - b * trunc_div(a, b) == -am + bm * q);
    }
}

} // verus!
