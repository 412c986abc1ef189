//! Percentages as exact shares of a whole, and their decimal text.

use crate::args::Precision;
use crate::text::{
    append_decimal, append_fixed, decimal_digits, fixed_digits, lemma_decimal_digits_shape,
    lemma_fixed_digits_shape,
};
use vstd::arithmetic::div_mod::lemma_fundamental_div_mod;
use vstd::prelude::*;
use vstd::string::StringExecFns;

verus! {

/// The integer nearest to `n / w`; a tie goes to the even neighbour.
pub open spec fn round_half_even(n: nat, w: nat) -> nat
    recommends
        w > 0,
{
    let q = n / w;
    let r = n % w;
    if 2 * r > w || (2 * r == w && q % 2 == 1) {
        q + 1
    } else {
        q
    }
}

/// The integer nearest to `n / w`; a tie goes to the larger neighbour.
pub open spec fn round_half_up(n: nat, w: nat) -> nat
    recommends
        w > 0,
{
    let q = n / w;
    let r = n % w;
    if 2 * r >= w {
        q + 1
    } else {
        q
    }
}

/// Both roundings stay within half a unit of the quotient, and neither
/// exceeds `k` when the quotient does not.
pub proof fn lemma_rounding(n: nat, w: nat, k: nat)
    requires
        w > 0,
        n <= k * w,
    ensures
        -(w as int) <= 2 * (round_half_even(n, w) * w - n) <= w,
        -(w as int) < 2 * (round_half_up(n, w) * w - n) <= w,
        round_half_even(n, w) <= k,
        round_half_up(n, w) <= k,
{
    let q = n / w;
    let r = n % w;
    lemma_fundamental_div_mod(n as int, w as int);
    assert(n == w * q + r);
    assert(0 <= r < w);
    assert((q + 1) * w == q * w + w) by (nonlinear_arith);
    assert(w * q == q * w) by (nonlinear_arith);
    assert(q <= k && (q == k ==> r == 0)) by (nonlinear_arith)
        requires
            n == w * q + r,
            0 <= r < w,
            n <= k * w,
            w > 0,
    ;
}

/// `text` is a decimal fraction with exactly `digits` digits behind its
/// point, and at least one in front.
pub open spec fn has_decimals(text: Seq<char>, digits: nat) -> bool {
    &&& text.len() >= digits + 2
    &&& text[text.len() - digits - 1] == '.'
    &&& forall|i: int|
        0 <= i < text.len() && i != text.len() - digits - 1 ==> '0' <= #[trigger] text[i] <= '9'
}

/// The text of a percentage has exactly the digits of its precision behind
/// the point.
pub proof fn lemma_text_has_decimals(p: Percentage, precision: Precision)
    ensures
        has_decimals(p.spec_text(precision), precision.spec_digits()),
{
    let scaled = p.spec_scaled(precision);
    let front = decimal_digits(scaled / precision.spec_scale());
    let back = fixed_digits(scaled % precision.spec_scale(), precision.spec_digits());
    lemma_decimal_digits_shape(scaled / precision.spec_scale());
    lemma_fixed_digits_shape(scaled % precision.spec_scale(), precision.spec_digits());
    let text = p.spec_text(precision);
    assert(text =~= front + seq!['.'] + back);
    assert forall|i: int|
        0 <= i < text.len() && i != text.len() - precision.spec_digits() - 1 implies '0'
        <= #[trigger] text[i] <= '9' by {
        if i < front.len() {
            assert(text[i] == front[i]);
        } else {
            assert(text[i] == back[i - front.len() - 1]);
        }
    }
}

/// The scaled percentage is a nearest integer: it misses the exact value by
/// at most one half.
pub proof fn lemma_scaled_is_nearest(p: Percentage, precision: Precision)
    requires
        p.wf(),
    ensures
        ({
            let exact = p.part * 100 * precision.spec_scale();
            let shown = p.spec_scaled(precision) * p.whole;
            -(p.whole as int) <= 2 * (shown - exact) <= p.whole
        }),
        p.spec_scaled(precision) <= 100 * precision.spec_scale(),
        p.spec_rounded() <= 100,
        -(p.whole as int) < 2 * (p.spec_rounded() * p.whole - p.part * 100) <= p.whole,
{
    let k = 100 * precision.spec_scale();
    assert(p.part * 100 * precision.spec_scale() <= k * p.whole) by (nonlinear_arith)
        requires
            p.part <= p.whole,
            k == 100 * precision.spec_scale(),
    ;
    lemma_rounding((p.part * 100 * precision.spec_scale()) as nat, p.whole as nat, k);
    lemma_rounding((p.part * 100) as nat, p.whole as nat, 100);
}

/// The share `part` of `whole`: it stands for the percentage
/// `100 * part / whole`.
#[derive(Debug, Clone, Copy, PartialEq, Eq, Structural)]
pub struct Percentage {
    pub part: u64,
    pub whole: u64,
}

impl Percentage {
    /// A percentage lies between 0 and 100 and has a whole to refer to.
    pub open spec fn wf(self) -> bool {
        0 < self.whole && self.part <= self.whole
    }

    /// The percentage times `precision`'s scale, rounded to the nearest
    /// integer, ties to even.
    pub open spec fn spec_scaled(self, precision: Precision) -> nat {
        round_half_even((self.part * 100 * precision.spec_scale()) as nat, self.whole as nat)
    }

    /// The percentage rounded to the nearest whole number, ties upward.
    pub open spec fn spec_rounded(self) -> nat {
        round_half_up((self.part * 100) as nat, self.whole as nat)
    }

    /// Whether the percentage is below one half.
    pub open spec fn spec_is_negligible(self) -> bool {
        self.part * 200 < self.whole
    }

    /// The percentage in decimal with exactly `precision`'s fractional
    /// digits.
    pub open spec fn spec_text(self, precision: Precision) -> Seq<char> {
        let scaled = self.spec_scaled(precision);
        decimal_digits(scaled / precision.spec_scale()) + seq!['.'] + fixed_digits(
            scaled % precision.spec_scale(),
            precision.spec_digits(),
        )
    }

    /// The share `part` of `whole`, where that is a percentage.
    pub fn new(part: u64, whole: u64) -> (made: Option<Percentage>)
        ensures
            made == if 0 < whole && part <= whole {
                Some(Percentage { part, whole })
            } else {
                None
            },
            made matches Some(p) ==> p.wf(),
    {
        if 0 < whole && part <= whole {
            Some(Percentage { part, whole })
        } else {
            None
        }
    }

    pub fn is_negligible(&self) -> (negligible: bool)
        ensures
            negligible == self.spec_is_negligible(),
    {
        let part: u128 = self.part as u128;
        let whole: u128 = self.whole as u128;
        part * 200 < whole
    }

    pub fn scaled(&self, precision: Precision) -> (scaled: u64)
        requires
            self.wf(),
        ensures
            scaled == self.spec_scaled(precision),
            scaled <= 100 * precision.spec_scale(),
    {
        let factor: u128 = 100 * (precision.scale() as u128);
        let whole: u128 = self.whole as u128;
        let part: u128 = self.part as u128;
        assert(part * factor <= whole * factor && whole * factor <= 0xffff_ffff_ffff_ffff * 10000)
            by (nonlinear_arith)
            requires
                part <= whole,
                whole <= 0xffff_ffff_ffff_ffff,
                factor <= 10000,
        ;
        let n: u128 = part * factor;
        assert(n == self.part * 100 * precision.spec_scale()) by (nonlinear_arith)
            requires
                n == part * factor,
                part == self.part,
                factor == 100 * precision.spec_scale(),
        ;
        proof {
            assert(n <= factor * whole) by (nonlinear_arith)
                requires
                    n == part * factor,
                    part <= whole,
            ;
            lemma_rounding(n as nat, whole as nat, factor as nat);
        }
        let q: u128 = n / whole;
        let r: u128 = n % whole;
        if 2 * r > whole || (2 * r == whole && q % 2 == 1) {
            (q + 1) as u64
        } else {
            q as u64
        }
    }

    pub fn rounded(&self) -> (rounded: usize)
        requires
            self.wf(),
        ensures
            rounded == self.spec_rounded(),
            rounded <= 100,
    {
        let whole: u128 = self.whole as u128;
        let n: u128 = (self.part as u128) * 100;
        proof {
            assert(n <= 100 * whole);
            lemma_rounding(n as nat, whole as nat, 100);
        }
        let q: u128 = n / whole;
        let r: u128 = n % whole;
        if 2 * r >= whole {
            (q + 1) as usize
        } else {
            q as usize
        }
    }

    pub fn to_text(&self, precision: Precision) -> (text: String)
        requires
            self.wf(),
        ensures
            text@ == self.spec_text(precision),
    {
        proof {
            reveal_strlit(".");
        }
        let scaled = self.scaled(precision);
        let scale = precision.scale();
        let mut text = String::new();
        append_decimal(&mut text, scaled / scale);
        text.append(".");
        append_fixed(&mut text, scaled % scale, precision.digits());
        assert(text@ =~= self.spec_text(precision));
        text
    }
}

} // verus!
