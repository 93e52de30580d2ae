//! Exact rational values for the calculator.
//!
//! A value is a fraction of two `i128`s kept in canonical form: the
//! denominator is positive, numerator and denominator share no factor, and
//! both magnitudes stay within [`MAG_MAX`].  An operation whose canonical
//! result would not fit yields zero, the same fallback the calculator uses
//! for a display it cannot read.

use vstd::arithmetic::div_mod::{
    lemma_fundamental_div_mod, lemma_mod_multiples_basic, lemma_mod_self_0,
};
use crate::digits::{frac_digits, nat_digits, padded_digits, pow10, push_decimal, push_padded, char_digit_value, digit_val, is_digit, lemma_pow10_values, lemma_pow10_monotone};
use vstd::math::abs;
use vstd::prelude::*;

verus! {

/// Largest numerator / denominator magnitude kept after normalisation.
pub const MAG_MAX: i128 = 1_000_000_000_000_000_000;

/// `MAG_MAX * MAG_MAX`: bound on a product of two in-range values.
pub const MAG_MAX_SQ: i128 = 1_000_000_000_000_000_000_000_000_000_000_000_000;

/// A rational number `num / den`.
#[derive(Clone, Copy, Debug)]
pub struct Rat {
    pub num: i128,
    pub den: i128,
}

/// Greatest common divisor, by Euclid's recursion.
pub open spec fn gcd(a: nat, b: nat) -> nat
    decreases b,
{
    if b == 0 {
        a
    } else {
        gcd(b, a % b)
    }
}

/// The gcd of two numbers, not both zero, is positive and divides both.
pub proof fn lemma_gcd_divides(a: nat, b: nat)
    requires
        a > 0 || b > 0,
    ensures
        gcd(a, b) > 0,
        a % gcd(a, b) == 0,
        b % gcd(a, b) == 0,
    decreases b,
{
    let g = gcd(a, b);
    if b == 0 {
        assert(g == a);
        lemma_mod_self_0(a as int);
        assert(0int % a as int == 0) by {
            lemma_mod_multiples_basic(0, a as int);
        }
    } else {
        let r = a % b;
        lemma_gcd_divides(b, r);
        assert(g == gcd(b, r));
        lemma_fundamental_div_mod(a as int, b as int);
        // a == b * (a / b) + r, and g divides both b and r, so g divides a.
        let q = a as int / b as int;
        let kb = b as int / g as int;
        let kr = r as int / g as int;
        lemma_fundamental_div_mod(b as int, g as int);
        lemma_fundamental_div_mod(r as int, g as int);
        assert(b as int == g * kb);
        assert(r as int == g * kr);
        assert(a as int == (kb * q + kr) * g as int) by (nonlinear_arith)
            requires
                a as int == b as int * q + r as int,
                b as int == g * kb,
                r as int == g * kr,
        ;
        lemma_mod_multiples_basic(kb * q + kr, g as int);
    }
}

/// Exact division shrinks a magnitude when the divisor is positive.
proof fn lemma_exact_div_bounds(x: nat, g: nat)
    requires
        g > 0,
        x % g == 0,
    ensures
        (x / g) * g == x,
        x / g <= x,
        x > 0 ==> x / g > 0,
{
    lemma_fundamental_div_mod(x as int, g as int);
    assert((x / g) * g == x) by (nonlinear_arith)
        requires
            x as int == g * (x as int / g as int) + x as int % g as int,
            x % g == 0,
            g > 0,
    ;
    assert(x / g <= x && (x > 0 ==> x / g > 0)) by (nonlinear_arith)
        requires
            (x / g) * g == x,
            g >= 1,
    ;
}

/// The signed integer with sign `neg` and magnitude `mag`.
pub open spec fn signed(neg: bool, mag: nat) -> int {
    if neg {
        -(mag as int)
    } else {
        mag as int
    }
}

/// The canonical rational equal to `n / d` (for `d >= 1`): both parts are
/// divided by their gcd, and a result too large for [`MAG_MAX`] collapses
/// to zero.
pub open spec fn norm(n: int, d: int) -> Rat
    recommends
        d >= 1,
{
    let g = gcd(abs(n), d as nat) as int;
    let n2 = n / g;
    let d2 = d / g;
    if -MAG_MAX <= n2 <= MAG_MAX && d2 <= MAG_MAX {
        Rat { num: n2 as i128, den: d2 as i128 }
    } else {
        Rat { num: 0, den: 1 }
    }
}

fn gcd_exec(a: u128, b: u128) -> (g: u128)
    ensures
        g as nat == gcd(a as nat, b as nat),
{
    let mut x: u128 = a;
    let mut y: u128 = b;
    while y != 0
        invariant
            gcd(x as nat, y as nat) == gcd(a as nat, b as nat),
        decreases y,
    {
        let r = x % y;
        x = y;
        y = r;
    }
    x
}

impl Rat {
    /// Canonical form: positive denominator, fully reduced, in range.
    pub open spec fn wf(self) -> bool {
        &&& 1 <= self.den <= MAG_MAX
        &&& -MAG_MAX <= self.num <= MAG_MAX
        &&& gcd(abs(self.num as int), self.den as nat) == 1
    }

    pub open spec fn zero() -> Rat {
        Rat { num: 0, den: 1 }
    }

    pub fn new_zero() -> (r: Rat)
        ensures
            r == Rat::zero(),
            r.wf(),
    {
        proof {
            lemma_gcd_one();
        }
        Rat { num: 0, den: 1 }
    }

    pub open spec fn add_spec(a: Rat, b: Rat) -> Rat {
        norm(a.num * b.den + b.num * a.den, a.den * b.den)
    }

    pub open spec fn sub_spec(a: Rat, b: Rat) -> Rat {
        norm(a.num * b.den - b.num * a.den, a.den * b.den)
    }

    pub open spec fn mul_spec(a: Rat, b: Rat) -> Rat {
        norm(a.num * b.num, a.den * b.den)
    }

    pub open spec fn div_spec(a: Rat, b: Rat) -> Rat
        recommends
            b.num != 0,
    {
        if b.num >= 0 {
            norm(a.num * b.den, a.den * b.num)
        } else {
            norm(-(a.num * b.den), -(a.den * b.num))
        }
    }

    pub fn add(&self, other: &Rat) -> (r: Rat)
        requires
            self.wf(),
            other.wf(),
        ensures
            r == Rat::add_spec(*self, *other),
            r.wf(),
    {
        proof {
            lemma_prod_bound(self.num as int, other.den as int);
            lemma_prod_bound(other.num as int, self.den as int);
            lemma_den_prod_bound(self.den as int, other.den as int);
        }
        let n: i128 = self.num * other.den + other.num * self.den;
        let d: i128 = self.den * other.den;
        norm_exec(n, d)
    }

    pub fn sub(&self, other: &Rat) -> (r: Rat)
        requires
            self.wf(),
            other.wf(),
        ensures
            r == Rat::sub_spec(*self, *other),
            r.wf(),
    {
        proof {
            lemma_prod_bound(self.num as int, other.den as int);
            lemma_prod_bound(other.num as int, self.den as int);
            lemma_den_prod_bound(self.den as int, other.den as int);
        }
        let n: i128 = self.num * other.den - other.num * self.den;
        let d: i128 = self.den * other.den;
        norm_exec(n, d)
    }

    pub fn mul(&self, other: &Rat) -> (r: Rat)
        requires
            self.wf(),
            other.wf(),
        ensures
            r == Rat::mul_spec(*self, *other),
            r.wf(),
    {
        proof {
            lemma_prod_bound(self.num as int, other.num as int);
            lemma_den_prod_bound(self.den as int, other.den as int);
        }
        let n: i128 = self.num * other.num;
        let d: i128 = self.den * other.den;
        norm_exec(n, d)
    }

    pub fn div(&self, other: &Rat) -> (r: Rat)
        requires
            self.wf(),
            other.wf(),
            other.num != 0,
        ensures
            r == Rat::div_spec(*self, *other),
            r.wf(),
    {
        proof {
            lemma_prod_bound(self.num as int, other.den as int);
            lemma_prod_bound(self.den as int, other.num as int);
            assert((other.num > 0 ==> 1 <= self.den * other.num) && (other.num < 0 ==> self.den
                * other.num <= -1)) by (nonlinear_arith)
                requires
                    1 <= self.den,
                    other.num != 0,
            ;
        }
        let n: i128 = self.num * other.den;
        let d: i128 = self.den * other.num;
        if d >= 0 {
            norm_exec(n, d)
        } else {
            norm_exec(-n, -d)
        }
    }
}

/// Scale used when a rational is written out: values are truncated to
/// [`FRAC_DIGITS`] digits after the decimal point.
pub const FRAC_SCALE: u128 = 1_000_000_000_000_000;

pub const FRAC_DIGITS: usize = 15;

/// The character form of the rational `num / den` (for `den >= 1`): an
/// optional minus sign, the integer part, and, when the truncated
/// fractional part is not zero, a point and the fractional digits with
/// trailing zeros removed.
pub open spec fn rat_digits(num: int, den: int) -> Seq<char>
    recommends
        den >= 1,
{
    let scaled = (abs(num) * FRAC_SCALE) / den;
    let ip = (scaled / FRAC_SCALE as int) as nat;
    let fp = (scaled % FRAC_SCALE as int) as nat;
    let mag = if fp == 0 {
        nat_digits(ip)
    } else {
        nat_digits(ip) + seq!['.'] + frac_digits(fp, FRAC_DIGITS as nat)
    };
    if num < 0 && scaled != 0 {
        seq!['-'] + mag
    } else {
        mag
    }
}

/// Writes a rational out as characters.
pub fn format_number(r: &Rat) -> (v: Vec<char>)
    requires
        r.wf(),
    ensures
        v@ == rat_digits(r.num as int, r.den as int),
{
    let neg: bool = r.num < 0;
    let mag: u128 = if r.num < 0 {
        (-r.num) as u128
    } else {
        r.num as u128
    };
    proof {
        assert(mag * FRAC_SCALE <= MAG_MAX as u128 * FRAC_SCALE) by (nonlinear_arith)
            requires
                0 <= mag <= MAG_MAX as u128,
        ;
    }
    let scaled: u128 = mag * FRAC_SCALE / (r.den as u128);
    let ip: u128 = scaled / FRAC_SCALE;
    let fp: u128 = scaled % FRAC_SCALE;
    let mut v: Vec<char> = Vec::new();
    if neg && scaled != 0 {
        v.push('-');
    }
    let ghost head: Seq<char> = v@;
    push_decimal(ip, &mut v);
    if fp == 0 {
        assert(v@ =~= rat_digits(r.num as int, r.den as int));
        v
    } else {
        v.push('.');
        let mut f: u128 = fp;
        let mut k: usize = FRAC_DIGITS;
        proof {
            lemma_pow10_values();
        }
        while f % 10 == 0
            invariant
                f >= 1,
                k <= FRAC_DIGITS,
                f < pow10(k as nat),
                frac_digits(fp as nat, FRAC_DIGITS as nat) == frac_digits(f as nat, k as nat),
            decreases k,
        {
            proof {
                if k == 0 {
                    assert(pow10(0) == 1);
                }
                lemma_fundamental_div_mod(f as int, 10);
                assert(pow10(k as nat) == 10 * pow10((k - 1) as nat));
                vstd::arithmetic::div_mod::lemma_multiply_divide_lt(
                    f as int,
                    10,
                    pow10((k - 1) as nat) as int,
                );
            }
            f = f / 10;
            k = k - 1;
        }
        proof {
            if k == 0 {
                assert(pow10(0) == 1);
                assert(false);
            }
        }
        let ghost mid: Seq<char> = v@;
        push_padded(f, k, &mut v);
        proof {
            assert(frac_digits(f as nat, k as nat) == padded_digits(f as nat, k as nat));
            assert(v@ =~= head + nat_digits(ip as nat) + seq!['.'] + frac_digits(
                fp as nat,
                FRAC_DIGITS as nat,
            ));
            assert(v@ =~= rat_digits(r.num as int, r.den as int));
        }
        v
    }
}

/// Scans digits, and at most one decimal point, from position zero to the
/// end of `s`; yields the digits' value and the count of digits after the
/// point, or nothing if a stray character appears, a second point
/// appears, or no digit at all appears.
pub open spec fn scan_number(s: Seq<char>, seen_dot: bool, mant: nat, flen: nat, any: bool) -> Option<
    (nat, nat),
>
    decreases s.len(),
{
    if s.len() == 0 {
        if any {
            Option::Some((mant, flen))
        } else {
            Option::None
        }
    } else if s[0] == '.' {
        if seen_dot {
            Option::None
        } else {
            scan_number(s.drop_first(), true, mant, flen, any)
        }
    } else if is_digit(s[0]) {
        scan_number(
            s.drop_first(),
            seen_dot,
            mant * 10 + digit_val(s[0]),
            if seen_dot {
                flen + 1
            } else {
                flen
            },
            true,
        )
    } else {
        Option::None
    }
}

/// The rational a display reads as: an optional leading minus sign, then
/// digits with at most one decimal point.  Values whose digits or scale
/// exceed what [`MAG_MAX`] can carry are not readable.
pub open spec fn parse_chars(s: Seq<char>) -> Option<Rat> {
    let neg = s.len() > 0 && s[0] == '-';
    let body = if neg {
        s.drop_first()
    } else {
        s
    };
    match scan_number(body, false, 0, 0, false) {
        Option::Some(p) => if p.0 <= MAG_MAX as nat && p.1 <= 18 {
            Option::Some(norm(signed(neg, p.0), pow10(p.1) as int))
        } else {
            Option::None
        },
        Option::None => Option::None,
    }
}

/// Reads a display as a rational, as [`parse_chars`] describes.
pub fn parse_number(s: &Vec<char>) -> (r: Option<Rat>)
    ensures
        r == parse_chars(s@),
        match r {
            Option::Some(x) => x.wf(),
            Option::None => true,
        },
{
    let neg: bool = s.len() > 0 && s[0] == '-';
    let start: usize = if neg {
        1
    } else {
        0
    };
    let ghost body: Seq<char> = if neg {
        s@.drop_first()
    } else {
        s@
    };
    proof {
        assert(body =~= s@.skip(start as int));
    }
    let mut i: usize = start;
    let mut seen_dot: bool = false;
    let mut mant: u128 = 0;
    let ghost mut true_mant: nat = 0;
    let mut over: bool = false;
    let mut flen: usize = 0;
    let mut any: bool = false;
    while i < s.len()
        invariant
            start <= i <= s@.len(),
            neg == (s@.len() > 0 && s@[0] == '-'),
            start == (if neg {
                1int
            } else {
                0int
            }),
            body == (if neg {
                s@.drop_first()
            } else {
                s@
            }),
            body == s@.skip(start as int),
            scan_number(body, false, 0, 0, false) == scan_number(
                s@.skip(i as int),
                seen_dot,
                true_mant,
                flen as nat,
                any,
            ),
            !over ==> mant as nat == true_mant && true_mant <= MAG_MAX as nat,
            over ==> true_mant > MAG_MAX as nat,
            flen <= i,
        decreases s@.len() - i,
    {
        let c: char = s[i];
        proof {
            assert(s@.skip(i as int)[0] == c);
            assert(s@.skip(i as int).drop_first() =~= s@.skip(i as int + 1));
        }
        if c == '.' {
            if seen_dot {
                return Option::None;
            }
            seen_dot = true;
        } else {
            let d: u128 = char_digit_value(c);
            if d >= 10 {
                return Option::None;
            }
            proof {
                if over {
                    assert(true_mant * 10 + digit_val(c) > MAG_MAX as nat) by (nonlinear_arith)
                        requires
                            true_mant > MAG_MAX as nat,
                            digit_val(c) >= 0,
                    ;
                }
            }
            if !over {
                let grown: u128 = mant * 10 + d;
                if grown > MAG_MAX as u128 {
                    over = true;
                } else {
                    mant = grown;
                }
            }
            proof {
                true_mant = true_mant * 10 + digit_val(c);
            }
            if seen_dot {
                flen = flen + 1;
            }
            any = true;
        }
        i = i + 1;
    }
    proof {
        assert(s@.skip(s@.len() as int) =~= Seq::<char>::empty());
    }
    if !any || over || flen > 18 {
        return Option::None;
    }
    let den: u128 = pow10_exec(flen);
    proof {
        lemma_pow10_values();
        lemma_pow10_monotone(flen as nat, 18);
        lemma_pow10_monotone(0, flen as nat);
        assert(pow10(0) == 1);
    }
    let n: i128 = if neg {
        -(mant as i128)
    } else {
        mant as i128
    };
    let out = norm_exec(n, den as i128);
    Option::Some(out)
}

/// Ten to the `k`, executably.
fn pow10_exec(k: usize) -> (p: u128)
    requires
        k <= 18,
    ensures
        p as nat == pow10(k as nat),
{
    let mut p: u128 = 1;
    let mut j: usize = 0;
    proof {
        lemma_pow10_values();
    }
    while j < k
        invariant
            j <= k <= 18,
            p as nat == pow10(j as nat),
            pow10(18) == 1_000_000_000_000_000_000,
        decreases k - j,
    {
        proof {
            lemma_pow10_monotone(j as nat + 1, 18);
            assert(pow10(j as nat + 1) == 10 * pow10(j as nat));
        }
        p = p * 10;
        j = j + 1;
    }
    p
}

/// gcd with 1 is 1, so integer-valued rationals are canonical.
pub proof fn lemma_gcd_one()
    ensures
        forall|a: nat| #[trigger] gcd(a, 1) == 1,
{
    assert forall|a: nat| #[trigger] gcd(a, 1) == 1 by {
        assert(gcd(a, 1) == gcd(1, a % 1));
        assert(a % 1 == 0) by {
            lemma_fundamental_div_mod(a as int, 1);
        }
        assert(gcd(1, 0) == 1);
    }
}

/// A product of an in-range numerator and an in-range denominator stays
/// within `MAG_MAX_SQ`.
proof fn lemma_prod_bound(x: int, y: int)
    requires
        -MAG_MAX <= x <= MAG_MAX,
        -MAG_MAX <= y <= MAG_MAX,
    ensures
        -MAG_MAX_SQ <= x * y <= MAG_MAX_SQ,
{
    assert(-MAG_MAX_SQ <= x * y <= MAG_MAX_SQ) by (nonlinear_arith)
        requires
            -MAG_MAX <= x <= MAG_MAX,
            -MAG_MAX <= y <= MAG_MAX,
    ;
}

/// A product of two in-range denominators is a positive in-range product.
proof fn lemma_den_prod_bound(x: int, y: int)
    requires
        1 <= x <= MAG_MAX,
        1 <= y <= MAG_MAX,
    ensures
        1 <= x * y <= MAG_MAX_SQ,
{
    assert(1 <= x * y <= MAG_MAX_SQ) by (nonlinear_arith)
        requires
            1 <= x <= MAG_MAX,
            1 <= y <= MAG_MAX,
    ;
}

/// Reduces `n / d` to the canonical form [`norm`] describes.
fn norm_exec(n: i128, d: i128) -> (r: Rat)
    requires
        1 <= d <= MAG_MAX_SQ,
        -MAG_MAX_SQ - MAG_MAX_SQ <= n <= MAG_MAX_SQ + MAG_MAX_SQ,
    ensures
        r == norm(n as int, d as int),
        r.wf(),
{
    let neg: bool = n < 0;
    let n_mag: u128 = if n < 0 {
        (-n) as u128
    } else {
        n as u128
    };
    let g: u128 = gcd_exec(n_mag, d as u128);
    proof {
        lemma_gcd_divides(n_mag as nat, d as nat);
    }
    let n2: u128 = n_mag / g;
    let d2: u128 = d as u128 / g;
    proof {
        lemma_exact_div_bounds(n_mag as nat, g as nat);
        lemma_exact_div_bounds(d as nat, g as nat);
        // The signed quotients in `norm` agree with the magnitude quotients.
        lemma_signed_exact_div(n as int, n_mag as nat, g as nat);
        if n2 <= MAG_MAX as u128 && d2 <= MAG_MAX as u128 {
            lemma_reduced_is_coprime(n_mag as nat, d as nat, g as nat);
        }
        lemma_gcd_one();
    }
    if n2 <= MAG_MAX as u128 && d2 <= MAG_MAX as u128 {
        let num: i128 = if neg {
            -(n2 as i128)
        } else {
            n2 as i128
        };
        Rat { num, den: d2 as i128 }
    } else {
        Rat { num: 0, den: 1 }
    }
}

/// Dividing a signed number by an exact positive divisor of its magnitude
/// gives the signed quotient of the magnitudes.
proof fn lemma_signed_exact_div(n: int, mag: nat, g: nat)
    requires
        abs(n) == mag,
        g > 0,
        mag % g == 0,
    ensures
        n >= 0 ==> n / g as int == mag / g,
        n < 0 ==> n / g as int == -((mag / g) as int),
{
    lemma_exact_div_bounds(mag, g);
    let q = mag / g;
    if n >= 0 {
    } else {
        assert(n == (-(q as int)) * g) by (nonlinear_arith)
            requires
                q * g == mag,
                n == -(mag as int),
        ;
        assert((-(q as int)) * g as int / g as int == -(q as int)) by {
            vstd::arithmetic::div_mod::lemma_div_multiples_vanish(-(q as int), g as int);
        }
    }
}

/// After dividing out the gcd, the parts are coprime.
proof fn lemma_reduced_is_coprime(a: nat, b: nat, g: nat)
    requires
        b > 0,
        g == gcd(a, b),
        g > 0,
        a % g == 0,
        b % g == 0,
    ensures
        gcd(a / g, b / g) == 1,
{
    lemma_exact_div_bounds(a, g);
    lemma_exact_div_bounds(b, g);
    let a2 = a / g;
    let b2 = b / g;
    lemma_gcd_divides(a2, b2);
    let h = gcd(a2, b2);
    lemma_exact_div_bounds(a2, h);
    lemma_exact_div_bounds(b2, h);
    // g * h divides both a and b, so it divides their gcd g; hence h == 1.
    assert(a == (a2 / h) * (g * h) && b == (b2 / h) * (g * h) && g * h > 0) by (nonlinear_arith)
        requires
            (a2 / h) * h == a2,
            (b2 / h) * h == b2,
            a2 * g == a,
            b2 * g == b,
            g > 0,
            h > 0,
    ;
    lemma_common_divisor_le_gcd(a, b, g * h, a2 / h, b2 / h);
    assert(g * h <= g);
    assert(h == 1) by (nonlinear_arith)
        requires
            g * h <= g,
            g > 0,
            h > 0,
    ;
}

/// Any common divisor of `a` and `b > 0` is at most `gcd(a, b)`.
proof fn lemma_common_divisor_le_gcd(a: nat, b: nat, c: nat, ka: nat, kb: nat)
    requires
        b > 0,
        c > 0,
        a == ka * c,
        b == kb * c,
    ensures
        c <= gcd(a, b),
        gcd(a, b) % c == 0,
    decreases b,
{
    let r = a % b;
    lemma_fundamental_div_mod(a as int, b as int);
    let q = a as int / b as int;
    // r == a - b * q is also a multiple of c.
    let kr = ka - kb * q;
    assert(r as int == kr * c) by (nonlinear_arith)
        requires
            a as int == b as int * q + r as int,
            a == ka * c,
            b == kb * c,
            kr == ka - kb * q,
    ;
    assert(r < b) by {
        vstd::arithmetic::div_mod::lemma_mod_division_less_than_divisor(a as int, b as int);
    }
    if r == 0 {
        assert(gcd(a, b) == gcd(b, 0)) by {
            assert(gcd(b, a % b) == gcd(b, 0));
        }
        assert(gcd(b, 0) == b);
        assert(c <= b) by (nonlinear_arith)
            requires
                b == kb * c,
                b > 0,
                c > 0,
        ;
        lemma_mod_multiples_basic(kb as int, c as int);
    } else {
        assert(kr >= 0) by (nonlinear_arith)
            requires
                r as int == kr * c,
                r > 0,
                c > 0,
        ;
        lemma_common_divisor_le_gcd(b, r, c, kb, kr as nat);
        assert(gcd(a, b) == gcd(b, r));
    }
}

} // verus!
