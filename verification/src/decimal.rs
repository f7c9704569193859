//! Exact fixed-point decimal codec. A price is a mantissa over a power-of-ten
//! divisor; rendering and parsing work digit by digit on the text, never
//! through floating point, so the printed form of a value parses back to the
//! identical `(value, denom)` pair.

use vstd::prelude::*;
use crate::digits::{
    all_digits, dec_digits, digits_val, is_digit, lemma_dec_digits_val, lemma_padded_digits_val,
    lemma_pow10_increases, lemma_pow10_pos, padded_chars, padded_digits, parse_digits_u64, pow10,
    u64_to_chars,
};
use crate::text::{
    chars_to_string, find_char, lemma_find_char_at, lemma_find_char_none, lemma_find_char_prepend,
    str_to_chars,
};
use vstd::arithmetic::div_mod::lemma_fundamental_div_mod;

verus! {

/// Whether `n` is a power of ten (1, 10, 100, ...).
pub open spec fn is_pow10(n: int) -> bool
    decreases n,
{
    if n < 1 {
        false
    } else if n == 1 {
        true
    } else {
        n % 10 == 0 && is_pow10(n / 10)
    }
}

/// The exponent of a power of ten, by exact digit counting.
pub open spec fn log10_of(n: int) -> nat
    decreases n,
{
    if n <= 1 {
        0
    } else {
        1 + log10_of(n / 10)
    }
}

pub proof fn lemma_pow10_log10(n: int)
    requires
        is_pow10(n),
    ensures
        pow10(log10_of(n)) == n,
    decreases n,
{
    if n > 1 {
        lemma_pow10_log10(n / 10);
    }
}

pub proof fn lemma_is_pow10_pow10(e: nat)
    ensures
        is_pow10(pow10(e) as int),
        log10_of(pow10(e) as int) == e,
    decreases e,
{
    if e > 0 {
        lemma_is_pow10_pow10((e - 1) as nat);
        let x = pow10((e - 1) as nat) as int;
        lemma_pow10_pos((e - 1) as nat);
        assert((10 * x) % 10 == 0 && (10 * x) / 10 == x) by (nonlinear_arith)
            requires
                x >= 1,
        ;
        assert(pow10(e) == 10 * x);
    }
}

pub proof fn lemma_pow10_18_19()
    ensures
        pow10(18) == 1000000000000000000,
        pow10(19) == 10000000000000000000,
{
    reveal_with_fuel(pow10, 21);
}

/// Computes ten to the power `e`.
pub fn pow10_u64(e: u32) -> (r: u64)
    requires
        e <= 19,
    ensures
        r as nat == pow10(e as nat),
{
    let mut r: u64 = 1;
    let mut i: u32 = 0;
    while i < e
        invariant
            i <= e <= 19,
            r as nat == pow10(i as nat),
        decreases e - i,
    {
        proof {
            lemma_pow10_18_19();
            if i as nat + 1 <= 19 {
                if (i as nat) + 1 < 19 {
                    lemma_pow10_increases((i + 1) as nat, 19);
                }
            }
            assert(pow10((i + 1) as nat) == 10 * pow10(i as nat));
            assert(pow10((i + 1) as nat) <= pow10(19));
        }
        r = r * 10;
        i = i + 1;
    }
    r
}

/// The scale (power-of-ten exponent) of a divisor, by digit counting.
pub fn scale_of_denom(denom: i64) -> (s: u32)
    requires
        is_pow10(denom as int),
    ensures
        s as nat == log10_of(denom as int),
        pow10(s as nat) == denom as int,
        s <= 18,
    decreases denom,
{
    proof {
        lemma_pow10_log10(denom as int);
        lemma_pow10_18_19();
        if log10_of(denom as int) > 19 {
            lemma_pow10_increases(19, log10_of(denom as int));
        }
        if log10_of(denom as int) == 19 {
            assert(pow10(19) == denom as int);
        }
    }
    if denom <= 1 {
        0
    } else {
        let sub = scale_of_denom(denom / 10);
        sub + 1
    }
}

/// The magnitude of an `i64`, exact also at the minimum value.
pub fn abs_mag(value: i64) -> (m: u64)
    ensures
        value >= 0 ==> m as int == value as int,
        value < 0 ==> m as int == -(value as int),
{
    if value >= 0 {
        value as u64
    } else {
        let w: i128 = -(value as i128);
        w as u64
    }
}

/// The canonical text of the non-negative value `m / 10^s`: the integer part,
/// then (when `s > 0`) a point and exactly `s` fraction digits.
pub open spec fn spec_render_mag(m: nat, s: nat) -> Seq<char> {
    if s == 0 {
        dec_digits(m)
    } else {
        dec_digits(m / pow10(s)) + seq!['.'] + padded_digits(m % pow10(s), s)
    }
}

/// The canonical text of the signed value `v / 10^s`.
pub open spec fn spec_render(v: int, s: nat) -> Seq<char> {
    if v < 0 {
        seq!['-'] + spec_render_mag((-v) as nat, s)
    } else {
        spec_render_mag(v as nat, s)
    }
}

/// Renders `value / denom` as exact decimal text.
pub fn render_decimal(value: i64, denom: i64) -> (r: String)
    requires
        is_pow10(denom as int),
    ensures
        r@ == spec_render(value as int, log10_of(denom as int)),
{
    let ghost sp = log10_of(denom as int);
    let sc = scale_of_denom(denom);
    let mag = abs_mag(value);
    let p = pow10_u64(sc);
    proof {
        lemma_pow10_pos(sp);
    }
    let ip = mag / p;
    let fp = mag % p;
    let mut v: Vec<char> = Vec::new();
    if value < 0 {
        v.push('-');
    }
    let mut ic = u64_to_chars(ip);
    v.append(&mut ic);
    if sc > 0 {
        v.push('.');
        let mut fc = padded_chars(fp, sc as usize);
        v.append(&mut fc);
    }
    proof {
        assert(v@ =~= spec_render(value as int, sp));
    }
    chars_to_string(&v)
}

/// Whether an (unsigned) character sequence is a well-formed decimal literal:
/// digits, optionally followed by a point and at least one fraction digit.
pub open spec fn mag_ok(s: Seq<char>) -> bool {
    let k = find_char(s, '.');
    if k < 0 {
        s.len() > 0 && all_digits(s)
    } else {
        &&& k >= 1
        &&& k + 1 < s.len()
        &&& all_digits(s.take(k))
        &&& all_digits(s.skip(k + 1))
        &&& find_char(s.skip(k + 1), '.') < 0
    }
}

/// Number of fraction digits of an unsigned decimal literal.
pub open spec fn mag_scale(s: Seq<char>) -> nat {
    let k = find_char(s, '.');
    if k < 0 {
        0
    } else {
        (s.len() - k - 1) as nat
    }
}

/// Mantissa of an unsigned decimal literal: the digits with the point erased.
pub open spec fn mag_val(s: Seq<char>) -> nat {
    let k = find_char(s, '.');
    if k < 0 {
        digits_val(s)
    } else {
        digits_val(s.take(k)) * pow10(mag_scale(s)) + digits_val(s.skip(k + 1))
    }
}

/// Whether a character sequence, with an optional leading minus sign, is a
/// well-formed decimal literal.
pub open spec fn decimal_ok(s: Seq<char>) -> bool {
    if s.len() > 0 && s[0] == '-' {
        mag_ok(s.drop_first())
    } else {
        mag_ok(s)
    }
}

/// Number of fraction digits of a decimal literal.
pub open spec fn decimal_scale(s: Seq<char>) -> nat {
    if s.len() > 0 && s[0] == '-' {
        mag_scale(s.drop_first())
    } else {
        mag_scale(s)
    }
}

/// The signed mantissa of a decimal literal.
pub open spec fn decimal_val(s: Seq<char>) -> int {
    if s.len() > 0 && s[0] == '-' {
        -(mag_val(s.drop_first()) as int)
    } else {
        mag_val(s) as int
    }
}

/// Parses exact decimal text into `(value, denom)`, so that the number equals
/// `value / denom` with `denom` the power of ten matching the typed fraction
/// digits ("123.45" gives `(12345, 100)`). Returns `None` exactly when the
/// text is not a decimal literal, has more than 18 fraction digits, or does
/// not fit an `i64` mantissa.
pub fn parse_decimal(s: &str) -> (r: Option<(i64, i64)>)
    ensures
        match r {
            Some(p) => decimal_ok(s@) && decimal_scale(s@) <= 18 && p.0 as int == decimal_val(s@)
                && p.1 as int == pow10(decimal_scale(s@)),
            None => !decimal_ok(s@) || decimal_scale(s@) > 18 || decimal_val(s@) > i64::MAX
                || decimal_val(s@) < i64::MIN,
        },
{
    let cv = str_to_chars(s);
    let n = cv.len();
    let neg = n > 0 && cv[0] == '-';
    let start: usize = if neg {
        1
    } else {
        0
    };
    let ghost g = s@;
    let ghost m = if neg {
        g.drop_first()
    } else {
        g
    };
    proof {
        if neg {
            assert(m =~= g.skip(1));
        } else {
            assert(m =~= g.skip(0));
        }
        assert(m == g.skip(start as int));
        assert(neg ==> (g.len() > 0 && g[0] == '-'));
        assert(!neg ==> !(g.len() > 0 && g[0] == '-'));
        assert(decimal_ok(g) == mag_ok(m));
        assert(decimal_scale(g) == mag_scale(m));
        assert(decimal_val(g) == (if neg {
            -(mag_val(m) as int)
        } else {
            mag_val(m) as int
        }));
    }
    // locate the first point
    let mut dot: usize = n;
    let mut i: usize = start;
    while i < n
        invariant_except_break
            start <= i <= n,
            n == g.len(),
            cv@ == g,
            dot == n,
            forall|j: int| start <= j < i ==> g[j] != '.',
        ensures
            n == g.len(),
            cv@ == g,
            (dot == n && forall|j: int| start <= j < n ==> g[j] != '.') || (start <= dot < n
                && g[dot as int] == '.' && forall|j: int| start <= j < dot ==> g[j] != '.'),
        decreases n - i,
    {
        if cv[i] == '.' {
            dot = i;
            break;
        }
        i += 1;
    }
    proof {
        if dot == n {
            assert(forall|j: int| 0 <= j < m.len() ==> m[j] != '.');
            lemma_find_char_none(m, '.');
        } else {
            assert(g[dot as int] == '.');
            assert(m[dot - start] == '.');
            lemma_find_char_at(m, '.', dot - start);
        }
    }
    let mag: u64;
    let ghost sc = mag_scale(m);
    if dot == n {
        // no fraction part
        if start >= n {
            return None;
        }
        proof {
            assert(cv@.subrange(start as int, n as int) =~= m);
        }
        match parse_digits_u64(&cv, start, n) {
            None => {
                proof {
                    if all_digits(m) {
                        assert(mag_val(m) > u64::MAX);
                    }
                }
                return None;
            },
            Some(x) => {
                mag = x;
            },
        }
    } else {
        // fraction part present
        if dot <= start || dot + 1 >= n {
            return None;
        }
        let fd = n - dot - 1;
        proof {
            assert(sc == fd as nat);
        }
        if fd > 18 {
            return None;
        }
        proof {
            assert(cv@.subrange(start as int, dot as int) =~= m.take(dot - start));
            assert(cv@.subrange(dot + 1, n as int) =~= m.skip(dot - start + 1));
        }
        let ip = match parse_digits_u64(&cv, start, dot) {
            None => {
                proof {
                    if all_digits(m.take(dot - start)) {
                        lemma_pow10_pos(sc);
                        assert(mag_val(m) >= digits_val(m.take(dot - start))) by (nonlinear_arith)
                            requires
                                mag_val(m) == digits_val(m.take(dot - start)) * pow10(sc)
                                    + digits_val(m.skip(dot - start + 1)),
                                pow10(sc) >= 1,
                        ;
                    }
                }
                return None;
            },
            Some(x) => x,
        };
        let fp = match parse_digits_u64(&cv, dot + 1, n) {
            None => {
                proof {
                    if all_digits(m.skip(dot - start + 1)) {
                        assert(mag_val(m) >= digits_val(m.skip(dot - start + 1)));
                    }
                }
                return None;
            },
            Some(x) => x,
        };
        let p = pow10_u64(fd as u32);
        proof {
            let tail = m.skip(dot - start + 1);
            assert(('.' as u32) == 46);
            assert(forall|j: int| 0 <= j < tail.len() ==> #[trigger] tail[j] != '.') by {
                assert(all_digits(tail));
            }
            lemma_find_char_none(tail, '.');
            lemma_pow10_pos(sc);
            assert(mag_val(m) == digits_val(m.take(dot - start)) * pow10(sc) + digits_val(
                m.skip(dot - start + 1),
            ));
        }
        let combined = match ip.checked_mul(p) {
            None => {
                proof {
                    assert((ip as nat) * (p as nat) > u64::MAX);
                    assert(mag_val(m) >= (ip as nat) * (p as nat));
                }
                return None;
            },
            Some(x) => x,
        };
        match combined.checked_add(fp) {
            None => {
                proof {
                    assert(mag_val(m) > u64::MAX);
                }
                return None;
            },
            Some(x) => {
                mag = x;
            },
        }
    }
    proof {
        assert(mag_ok(m) && mag as nat == mag_val(m));
    }
    // apply the sign and check the i64 range
    if neg {
        if mag > 9223372036854775808u64 {
            return None;
        }
        if mag == 9223372036854775808u64 {
            return Some((i64::MIN, pow10_to_i64_denom(dot, n, start)));
        }
        let v = -(mag as i64);
        Some((v, pow10_to_i64_denom(dot, n, start)))
    } else {
        if mag > i64::MAX as u64 {
            return None;
        }
        Some((mag as i64, pow10_to_i64_denom(dot, n, start)))
    }
}

proof fn lemma_mul_ge(a: nat, b: nat)
    requires
        b >= 1,
    ensures
        a * b >= a,
{
    assert(a * b >= a * 1 == a) by (nonlinear_arith)
        requires
            b >= 1,
    ;
}

/// The power-of-ten divisor for the fraction width found while parsing.
fn pow10_to_i64_denom(dot: usize, n: usize, start: usize) -> (r: i64)
    requires
        dot == n || (start < dot && dot + 1 < n && n - dot - 1 <= 18),
    ensures
        dot == n ==> r as int == 1,
        dot < n ==> r as int == pow10((n - dot - 1) as nat),
{
    if dot == n {
        1
    } else {
        let w = (n - dot - 1) as u32;
        let p = pow10_u64(w);
        proof {
            lemma_pow10_18_19();
            if (w as nat) < 18 {
                lemma_pow10_increases(w as nat, 18);
            }
        }
        p as i64
    }
}

/// Round trip: the canonical text of any fixed-point value parses back to the
/// identical mantissa and scale, with no drift.
pub proof fn lemma_decimal_round_trip(v: int, s: nat)
    ensures
        decimal_ok(spec_render(v, s)),
        decimal_scale(spec_render(v, s)) == s,
        decimal_val(spec_render(v, s)) == v,
{
    let m = if v < 0 {
        (-v) as nat
    } else {
        v as nat
    };
    let rm = spec_render_mag(m, s);
    lemma_render_mag_ok(m, s);
    let r = spec_render(v, s);
    if v < 0 {
        assert(r[0] == '-');
        assert(r.drop_first() =~= rm);
        assert(decimal_val(r) == -(mag_val(rm) as int) == v);
    } else {
        assert(r == rm);
        assert(rm.len() > 0);
        if s == 0 {
            lemma_dec_digits_val(m);
            assert(is_digit(rm[0]));
        } else {
            lemma_dec_digits_val(m / pow10(s));
            assert(rm[0] == dec_digits(m / pow10(s))[0]);
            assert(is_digit(rm[0]));
        }
        assert(('-' as u32) == 45);
        assert(rm[0] != '-');
        assert(decimal_val(r) == mag_val(rm) as int == v);
    }
}

proof fn lemma_render_mag_ok(m: nat, s: nat)
    ensures
        mag_ok(spec_render_mag(m, s)),
        mag_scale(spec_render_mag(m, s)) == s,
        mag_val(spec_render_mag(m, s)) == m,
{
    let rm = spec_render_mag(m, s);
    if s == 0 {
        lemma_dec_digits_val(m);
        assert(forall|i: int| 0 <= i < rm.len() ==> #[trigger] rm[i] != '.') by {
            assert(forall|i: int| 0 <= i < rm.len() ==> is_digit(#[trigger] rm[i]));
            assert(('.' as u32) == 46);
        }
        lemma_find_char_none(rm, '.');
    } else {
        let p = pow10(s);
        lemma_pow10_pos(s);
        let ip = m / p;
        let fp = m % p;
        let a = dec_digits(ip);
        let b = padded_digits(fp, s);
        lemma_dec_digits_val(ip);
        lemma_padded_digits_val(fp, s);
        assert(('.' as u32) == 46);
        assert(forall|i: int| 0 <= i < a.len() ==> #[trigger] a[i] != '.');
        assert(forall|i: int| 0 <= i < b.len() ==> #[trigger] b[i] != '.');
        let tail = seq!['.'] + b;
        assert(tail[0] == '.');
        lemma_find_char_at(tail, '.', 0);
        lemma_find_char_prepend(a, tail, '.');
        assert(rm =~= a + tail);
        let k = find_char(rm, '.');
        assert(k == a.len());
        assert(k >= 1);
        assert(rm.len() == a.len() + 1 + b.len());
        assert(k + 1 < rm.len());
        assert(rm.take(k) =~= a);
        assert(rm.skip(k + 1) =~= b);
        lemma_find_char_none(b, '.');
        assert(mag_scale(rm) == b.len() == s);
        assert(mag_val(rm) == ip * p + fp);
        lemma_fundamental_div_mod(m as int, p as int);
        assert(m == p * (m as int / p as int) + m as int % p as int);
        assert(ip * p == p * ip) by (nonlinear_arith);
        assert(mag_val(rm) == m);
    }
}

/// A fixed-point decimal value: `mantissa / 10^scale`.
#[derive(Debug, Clone, Copy, PartialEq, Eq, Structural)]
pub struct DecimalValue {
    pub mantissa: i64,
    pub scale: u32,
}

impl DecimalValue {
    /// The canonical decimal text of this value.
    pub fn render(&self) -> (r: String)
        requires
            self.scale <= 18,
        ensures
            r@ == spec_render(self.mantissa as int, self.scale as nat),
    {
        proof {
            lemma_is_pow10_pow10(self.scale as nat);
            lemma_pow10_18_19();
            if (self.scale as nat) < 18 {
                lemma_pow10_increases(self.scale as nat, 18);
            }
        }
        let d = pow10_u64(self.scale);
        render_decimal(self.mantissa, d as i64)
    }
}

} // verus!
