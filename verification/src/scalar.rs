//! Decimal numerals.
//!
//! Mesh records carry signed decimal numerals such as `-12.75`.  The library
//! stores a numeral exactly as its sign and its two digit strings, so that a
//! stored value is precisely the value that was declared, and so that the
//! texture sampler can compute pixel coordinates from it with exact integer
//! arithmetic.

use vstd::arithmetic::div_mod::{
    lemma_div_by_multiple, lemma_div_denominator, lemma_div_is_ordered, lemma_div_of0,
    lemma_hoist_over_denominator,
};
use vstd::arithmetic::mul::{lemma_mul_inequality, lemma_mul_strict_inequality};
use vstd::prelude::*;

verus! {

/// `b` is an ASCII decimal digit.
pub open spec fn is_digit(b: u8) -> bool {
    48 <= b && b <= 57
}

/// Ten to the `n`-th power.
pub open spec fn pow10(n: nat) -> int
    decreases n,
{
    if n == 0 {
        1
    } else {
        10 * pow10((n - 1) as nat)
    }
}

/// The value of a digit string (digit values 0..=9, most significant first).
pub open spec fn digits_val(s: Seq<u8>) -> int
    decreases s.len(),
{
    if s.len() == 0 {
        0
    } else {
        s[0] * pow10((s.len() - 1) as nat) + digits_val(s.skip(1))
    }
}

/// Every byte of `s` is an ASCII digit.
pub open spec fn all_digits(s: Seq<u8>) -> bool {
    forall|i: int| 0 <= i < s.len() ==> is_digit(#[trigger] s[i])
}

/// The digit values of a string of ASCII digits.
pub open spec fn digit_values(s: Seq<u8>) -> Seq<u8> {
    s.map_values(|b: u8| (b - 48) as u8)
}

/// Index of the first byte of `s` that is not an ASCII digit, or `s.len()`.
pub open spec fn first_non_digit(s: Seq<u8>) -> int
    decreases s.len(),
{
    if s.len() == 0 {
        0
    } else if !is_digit(s[0]) {
        0
    } else {
        1 + first_non_digit(s.skip(1))
    }
}

pub proof fn lemma_pow10_pos(n: nat)
    ensures
        pow10(n) >= 1,
    decreases n,
{
    if n > 0 {
        lemma_pow10_pos((n - 1) as nat);
    }
}

/// Every string of digit values at most 9 is non-negative and below
/// ten to the number of digits.
pub proof fn lemma_digits_val_bound(s: Seq<u8>)
    requires
        forall|i: int| 0 <= i < s.len() ==> #[trigger] s[i] <= 9,
    ensures
        0 <= digits_val(s) < pow10(s.len() as nat),
    decreases s.len(),
{
    if s.len() == 0 {
    } else {
        lemma_digits_val_bound(s.skip(1));
        lemma_pow10_pos((s.len() - 1) as nat);
        let p: int = pow10((s.len() - 1) as nat);
        assert(s[0] * p <= 9 * p) by {
            lemma_mul_inequality(s[0] as int, 9, p);
        }
        assert(9 * p + (p - 1) < 10 * p);
    }
}

/// Appending a digit multiplies the value by ten and adds the digit.
pub proof fn lemma_digits_val_snoc(s: Seq<u8>, d: u8)
    ensures
        digits_val(s.push(d)) == 10 * digits_val(s) + d,
    decreases s.len(),
{
    if s.len() == 0 {
        assert(s.push(d) =~= seq![d]);
        assert(digits_val(seq![d]) == d * pow10(0) + digits_val(seq![d].skip(1)));
        assert(seq![d].skip(1) =~= Seq::<u8>::empty());
    } else {
        lemma_digits_val_snoc(s.skip(1), d);
        assert(s.push(d).skip(1) =~= s.skip(1).push(d));
        let n: nat = (s.len() - 1) as nat;
        assert(digits_val(s.push(d)) == s[0] * pow10(s.len() as nat) + digits_val(s.skip(1).push(d)));
        assert(pow10(s.len() as nat) == 10 * pow10(n));
        assert(s[0] * (10 * pow10(n)) == 10 * (s[0] * pow10(n))) by (nonlinear_arith);
    }
}

/// `first_non_digit` is the scan position that found `k` leading digits.
pub proof fn lemma_first_non_digit_is(s: Seq<u8>, k: int)
    requires
        0 <= k <= s.len(),
        forall|j: int| 0 <= j < k ==> is_digit(#[trigger] s[j]),
        k < s.len() ==> !is_digit(s[k]),
    ensures
        first_non_digit(s) == k,
    decreases s.len(),
{
    if k == 0 {
    } else {
        assert(is_digit(s[0]));
        lemma_first_non_digit_is(s.skip(1), k - 1);
    }
}

/// The view of a stored numeral: the sign and the two digit strings
/// (digit values, not ASCII), most significant digit first.
pub ghost struct ScalarView {
    pub neg: bool,
    pub int_digits: Seq<u8>,
    pub frac_digits: Seq<u8>,
}

/// A well-formed view holds digit values at most 9 and at least one digit.
pub open spec fn scalar_wf(v: ScalarView) -> bool {
    &&& forall|i: int| 0 <= i < v.int_digits.len() ==> #[trigger] v.int_digits[i] <= 9
    &&& forall|i: int| 0 <= i < v.frac_digits.len() ==> #[trigger] v.frac_digits[i] <= 9
    &&& v.int_digits.len() + v.frac_digits.len() >= 1
}

/// The numeral's magnitude, scaled by `denom`: for digits `I.F` this is
/// the integer `I * 10^|F| + F`, so the numeral's value is
/// `sign * scaled_num / denom`.
pub open spec fn scaled_num(v: ScalarView) -> int {
    digits_val(v.int_digits) * pow10(v.frac_digits.len() as nat) + digits_val(v.frac_digits)
}

/// The denominator of the numeral's value: ten to the number of
/// fractional digits.
pub open spec fn denom(v: ScalarView) -> int {
    pow10(v.frac_digits.len() as nat)
}

/// The numeral's value lies in the closed unit interval [0, 1].
pub open spec fn in_unit(v: ScalarView) -> bool {
    if v.neg {
        scaled_num(v) == 0
    } else {
        scaled_num(v) <= denom(v)
    }
}

/// The pixel coordinate a unit-interval numeral selects on an axis of `w`
/// pixels: the value scaled by `w` and truncated, with the far edge of the
/// interval clamped to the last pixel.
pub open spec fn spec_pixel(v: ScalarView, w: int) -> int {
    let raw: int = (w * scaled_num(v)) / denom(v);
    if raw < w - 1 {
        raw
    } else {
        w - 1
    }
}

/// Parsing a numeral token.  The accepted shapes are an optional sign
/// (`+` or `-`), then digits, then optionally a dot and further digits,
/// with at least one digit in all; nothing else is accepted.
pub open spec fn spec_parse_numeral(s: Seq<u8>) -> Option<ScalarView> {
    let neg: bool = s.len() > 0 && s[0] == 45u8;
    let t: Seq<u8> = if s.len() > 0 && (s[0] == 45u8 || s[0] == 43u8) {
        s.skip(1)
    } else {
        s
    };
    let k: int = first_non_digit(t);
    if k >= t.len() {
        if t.len() >= 1 {
            Some(ScalarView { neg, int_digits: digit_values(t), frac_digits: Seq::empty() })
        } else {
            None
        }
    } else if t[k] == 46u8 {
        if all_digits(t.skip(k + 1)) && t.len() >= 2 {
            Some(ScalarView {
                neg,
                int_digits: digit_values(t.take(k)),
                frac_digits: digit_values(t.skip(k + 1)),
            })
        } else {
            None
        }
    } else {
        None
    }
}

/// A parsed decimal numeral: a sign and the declared digit strings.
#[derive(Debug, PartialEq, Eq)]
pub struct Scalar {
    neg: bool,
    int_digits: Vec<u8>,
    frac_digits: Vec<u8>,
}

impl View for Scalar {
    type V = ScalarView;

    closed spec fn view(&self) -> ScalarView {
        ScalarView {
            neg: self.neg,
            int_digits: self.int_digits@,
            frac_digits: self.frac_digits@,
        }
    }
}

impl Clone for Scalar {
    fn clone(&self) -> (r: Self)
        ensures
            r@ == self@,
    {
        proof {
            use_type_invariant(self);
        }
        Scalar {
            neg: self.neg,
            int_digits: self.int_digits.clone(),
            frac_digits: self.frac_digits.clone(),
        }
    }
}

impl Scalar {
    #[verifier::type_invariant]
    closed spec fn inv(self) -> bool {
        scalar_wf(self@)
    }

    /// The sign: true for a numeral written with a leading minus.
    pub fn is_negative(&self) -> (r: bool)
        ensures
            r == self@.neg,
    {
        self.neg
    }

    /// The digits before the dot, as digit values.
    pub fn int_digits(&self) -> (r: &Vec<u8>)
        ensures
            r@ == self@.int_digits,
    {
        &self.int_digits
    }

    /// The digits after the dot, as digit values.
    pub fn frac_digits(&self) -> (r: &Vec<u8>)
        ensures
            r@ == self@.frac_digits,
    {
        &self.frac_digits
    }

    /// Parse one token as a signed decimal numeral.
    pub fn parse(s: &[u8]) -> (r: Option<Scalar>)
        ensures
            match r {
                Some(sc) => spec_parse_numeral(s@) == Some(sc@) && scalar_wf(sc@),
                None => spec_parse_numeral(s@) is None,
            },
    {
        let n: usize = s.len();
        let mut i: usize = 0;
        let mut neg: bool = false;
        if n > 0 && (s[0] == 45 || s[0] == 43) {
            neg = s[0] == 45;
            i = 1;
        }
        let ghost t: Seq<u8> = s@.skip(i as int);
        let start: usize = i;
        proof {
            if start == 0 {
                assert(s@.skip(0) =~= s@);
            }
        }
        let mut int_digits: Vec<u8> = Vec::new();
        while i < n && 48 <= s[i] && s[i] <= 57
            invariant
                start <= i <= n,
                n == s@.len(),
                start <= 1,
                t == s@.skip(start as int),
                int_digits@.len() == i - start,
                forall|j: int| 0 <= j < i - start ==> is_digit(#[trigger] t[j]),
                forall|j: int|
                    0 <= j < i - start ==> #[trigger] int_digits@[j] == t[j] - 48,
            decreases n - i,
        {
            int_digits.push(s[i] - 48);
            i += 1;
        }
        proof {
            lemma_first_non_digit_is(t, i - start);
            assert(int_digits@ =~= digit_values(t.take(i - start)));
        }
        let k: usize = i - start;
        if i == n {
            if int_digits.len() > 0 {
                proof {
                    assert(t.take(i - start) =~= t);
                }
                let sc = Scalar { neg, int_digits, frac_digits: Vec::new() };
                proof {
                    assert(sc@.frac_digits =~= Seq::<u8>::empty());
                }
                Some(sc)
            } else {
                None
            }
        } else if s[i] == 46 {
            i += 1;
            let frac_start: usize = i;
            let mut frac_digits: Vec<u8> = Vec::new();
            while i < n && 48 <= s[i] && s[i] <= 57
                invariant
                    frac_start <= i <= n,
                    n == s@.len(),
                    start <= 1,
                    start + k < frac_start,
                    frac_start == start + k + 1,
                    t == s@.skip(start as int),
                    frac_digits@.len() == i - frac_start,
                    forall|j: int|
                        k + 1 <= j < k + 1 + (i - frac_start) ==> is_digit(#[trigger] t[j]),
                    forall|j: int|
                        0 <= j < i - frac_start ==> #[trigger] frac_digits@[j] == t[k + 1 + j]
                            - 48,
            decreases n - i,
            {
                frac_digits.push(s[i] - 48);
                i += 1;
            }
            if i < n {
                // a non-digit after the dot: not a numeral
                proof {
                    let bad: int = i - start;
                    assert(t[bad] == s@[i as int]);
                    assert(!is_digit(t[bad]));
                    let ub: int = bad - (k as int) - 1;
                    assert(t.skip(k as int + 1)[ub] == t[k as int + 1 + ub]);
                    assert(!all_digits(t.skip(k as int + 1)));
                }
                None
            } else if int_digits.len() + frac_digits.len() > 0 {
                proof {
                    assert(frac_digits@ =~= digit_values(t.skip(k as int + 1)));
                    assert(t.len() >= 2);
                }
                let sc = Scalar { neg, int_digits, frac_digits };
                Some(sc)
            } else {
                None
            }
        } else {
            None
        }
    }

    /// The value of this numeral's integer digit string, saturated at 2.
    fn int_capped(&self) -> (r: u8)
        ensures
            r == if digits_val(self@.int_digits) < 2 {
                digits_val(self@.int_digits)
            } else {
                2int
            },
    {
        proof {
            use_type_invariant(self);
        }
        digits_capped(&self.int_digits)
    }

    /// The value of this numeral's fractional digit string, saturated at 2.
    fn frac_capped(&self) -> (r: u8)
        ensures
            r == if digits_val(self@.frac_digits) < 2 {
                digits_val(self@.frac_digits)
            } else {
                2int
            },
    {
        proof {
            use_type_invariant(self);
        }
        digits_capped(&self.frac_digits)
    }

    /// Whether the numeral's value lies in the closed interval [0, 1].
    pub fn in_unit_range(&self) -> (r: bool)
        ensures
            r == in_unit(self@),
    {
        proof {
            use_type_invariant(self);
            lemma_digits_val_bound(self@.int_digits);
            lemma_digits_val_bound(self@.frac_digits);
            lemma_pow10_pos(self@.frac_digits.len() as nat);
        }
        let a = self.int_capped();
        let f = self.frac_capped();
        let ghost av: int = digits_val(self@.int_digits);
        let ghost fv: int = digits_val(self@.frac_digits);
        let ghost p: int = denom(self@);
        if self.neg {
            proof {
                if av == 0 && fv == 0 {
                    assert(scaled_num(self@) == 0);
                } else {
                    assert(av * p >= 0) by {
                        lemma_mul_inequality(0, av, p);
                    }
                    if av > 0 {
                        assert(av * p >= 1 * p) by {
                            lemma_mul_inequality(1, av, p);
                        }
                    }
                }
            }
            a == 0 && f == 0
        } else {
            proof {
                if av == 0 {
                    assert(scaled_num(self@) == 0 * p + fv == fv);
                    assert(fv <= p);
                } else if av == 1 && fv == 0 {
                    assert(scaled_num(self@) == 1 * p + 0 == p);
                } else if av == 1 {
                    assert(1 * p + fv > p);
                } else {
                    assert(av * p >= 2 * p) by {
                        lemma_mul_inequality(2, av, p);
                    }
                    assert(scaled_num(self@) > p);
                }
            }
            a == 0 || (a == 1 && f == 0)
        }
    }

    /// The pixel coordinate this numeral selects on an axis of `w` pixels.
    pub fn pixel_index(&self, w: u32) -> (r: u32)
        requires
            w >= 1,
            in_unit(self@),
        ensures
            r == spec_pixel(self@, w as int),
            r < w,
    {
        proof {
            use_type_invariant(self);
            lemma_digits_val_bound(self@.int_digits);
            lemma_digits_val_bound(self@.frac_digits);
            lemma_pow10_pos(self@.frac_digits.len() as nat);
        }
        let ghost av: int = digits_val(self@.int_digits);
        let ghost fv: int = digits_val(self@.frac_digits);
        let ghost p: int = denom(self@);
        if self.neg {
            proof {
                assert(scaled_num(self@) == 0);
                lemma_div_of0(p);
                assert((w as int * 0) / p == 0);
            }
            0
        } else {
            proof {
                if av >= 2 {
                    assert(2 * p <= av * p) by {
                        lemma_mul_inequality(2, av, p);
                    }
                    assert(false);
                }
            }
            let a = self.int_capped();
            if a == 1 {
                // the value is exactly 1: clamp to the last pixel
                proof {
                    assert(av == 1);
                    assert(1 * p + fv <= p);
                    assert(fv == 0);
                    assert(scaled_num(self@) == p);
                    assert((w as int * p) / p == w as int) by {
                        lemma_div_by_multiple(w as int, p);
                    }
                }
                w - 1
            } else {
                proof {
                    assert(av == 0);
                    assert(scaled_num(self@) == fv);
                    assert(w as int * fv < w as int * p) by {
                        if fv < p {
                            lemma_mul_strict_inequality(fv, p, w as int);
                        }
                    }
                    assert((w as int * fv) / p < w as int) by {
                        lemma_div_strictly_bounded(w as int * fv, w as int, p);
                    }
                }
                frac_scaled_floor(w, &self.frac_digits)
            }
        }
    }
}

/// A coordinate whose value is exactly 1 is clamped to the last pixel of
/// the axis: the scaled-and-truncated coordinate would be `w`, one past
/// the end, and the far edge of the unit interval selects pixel `w - 1`.
pub proof fn lemma_far_edge_clamps(v: ScalarView, w: int)
    requires
        w >= 1,
        !v.neg,
        scaled_num(v) == denom(v),
    ensures
        in_unit(v),
        spec_pixel(v, w) == w - 1,
{
    lemma_pow10_pos(v.frac_digits.len() as nat);
    assert((w * denom(v)) / denom(v) == w) by {
        lemma_div_by_multiple(w, denom(v));
    }
}

/// `x < c*d` implies `x/d < c` for positive `d`.
proof fn lemma_div_strictly_bounded(x: int, c: int, d: int)
    requires
        0 <= x,
        0 < d,
        x < c * d,
    ensures
        x / d < c,
{
    if x / d >= c {
        assert(x >= d * (x / d)) by {
            vstd::arithmetic::div_mod::lemma_fundamental_div_mod(x, d);
            vstd::arithmetic::div_mod::lemma_mod_bound(x, d);
        }
        assert(d * (x / d) >= d * c) by {
            lemma_mul_inequality(c, x / d, d);
        }
        assert(d * c == c * d) by (nonlinear_arith);
    }
}

/// The value of a digit string, saturated at 2.
fn digits_capped(digits: &Vec<u8>) -> (r: u8)
    requires
        forall|i: int| 0 <= i < digits@.len() ==> #[trigger] digits@[i] <= 9,
    ensures
        r == if digits_val(digits@) < 2 {
            digits_val(digits@)
        } else {
            2int
        },
{
    let mut c: u8 = 0;
    let mut i: usize = 0;
    while i < digits.len()
        invariant
            0 <= i <= digits@.len(),
            forall|j: int| 0 <= j < digits@.len() ==> #[trigger] digits@[j] <= 9,
            c <= 2,
            c == if digits_val(digits@.take(i as int)) < 2 {
                digits_val(digits@.take(i as int))
            } else {
                2int
            },
        decreases digits@.len() - i,
    {
        proof {
            lemma_digits_val_snoc(digits@.take(i as int), digits@[i as int]);
            assert(digits@.take(i as int).push(digits@[i as int]) =~= digits@.take(
                i as int + 1,
            ));
            lemma_digits_val_bound(digits@.take(i as int));
        }
        let x: u8 = c * 10 + digits[i];
        c = if x > 2 {
            2
        } else {
            x
        };
        i += 1;
    }
    proof {
        assert(digits@.take(i as int) =~= digits@);
    }
    c
}

/// Exact scaled truncation: `(w * F) / 10^n` for the fractional digit
/// string `F` of length `n`, computed with bounded integers whatever the
/// length of the string.
fn frac_scaled_floor(w: u32, frac: &Vec<u8>) -> (r: u32)
    requires
        forall|i: int| 0 <= i < frac@.len() ==> #[trigger] frac@[i] <= 9,
    ensures
        r == (w as int * digits_val(frac@)) / pow10(frac@.len() as nat),
        r <= w,
{
    let mut t: u64 = 0;
    let mut i: usize = frac.len();
    while i > 0
        invariant
            0 <= i <= frac@.len(),
            forall|j: int| 0 <= j < frac@.len() ==> #[trigger] frac@[j] <= 9,
            t <= w,
            t == (w as int * digits_val(frac@.skip(i as int))) / pow10(
                (frac@.len() - i) as nat,
            ),
        decreases i,
    {
        i -= 1;
        let ghost len: int = frac@.len() as int;
        let ghost d: int = frac@[i as int] as int;
        let ghost vi: int = digits_val(frac@.skip(i as int + 1));
        let ghost pp: int = pow10((len - i - 1) as nat);
        proof {
            lemma_pow10_pos((len - i - 1) as nat);
            assert(frac@.skip(i as int).skip(1) =~= frac@.skip(i as int + 1));
            assert(digits_val(frac@.skip(i as int)) == d * pp + vi);
            lemma_digits_val_bound(frac@.skip(i as int + 1));
            // (w * (d*pp + vi)) / (pp*10) == (w*d + (w*vi)/pp) / 10
            assert(w as int * (d * pp + vi) == (w as int * d) * pp + w as int * vi)
                by (nonlinear_arith);
            lemma_div_denominator((w as int * d) * pp + w as int * vi, pp, 10);
            assert(pow10((len - i) as nat) == pp * 10) by {
                assert(pow10((len - i) as nat) == 10 * pp);
            }
            lemma_hoist_over_denominator(w as int * vi, w as int * d, pp as nat);
            assert(((w as int * d) * pp + w as int * vi) / pp == w as int * d + (w as int
                * vi) / pp) by {
                assert((w as int * d) * pp == pp * (w as int * d)) by (nonlinear_arith);
            }
            assert(w as int * d <= w as int * 9) by {
                lemma_mul_inequality(d, 9, w as int);
            }
        }
        let s: u64 = (w as u64) * (frac[i] as u64) + t;
        proof {
            assert(s as int == w as int * d + t as int);
            assert(s <= 10 * (w as u64));
        }
        t = s / 10;
        proof {
            lemma_div_is_ordered(s as int, 10 * w as int, 10);
            lemma_div_by_multiple(w as int, 10);
            assert((w as int * 10) / 10 == w as int) by {
                assert(w as int * 10 == 10 * w as int);
            }
            assert(t <= w);
        }
    }
    proof {
        assert(frac@.skip(0) =~= frac@);
    }
    t as u32
}

} // verus!
