//! Decimal numbers as plain integers: a mantissa and a count of fractional
//! digits. Text is read and written by `rust_decimal`.

use rust_decimal::Decimal;
use vstd::prelude::*;

verus! {

/// Largest count of fractional digits of a decimal number.
pub const MAX_SCALE: u32 = 28;

/// Largest magnitude of a mantissa: 2^96 - 1.
pub const MAX_MANTISSA: i128 = 79_228_162_514_264_337_593_543_950_335;

/// Ten to the power `n`.
pub open spec fn pow10(n: nat) -> int
    decreases n,
{
    if n == 0 {
        1
    } else {
        10 * pow10((n - 1) as nat)
    }
}

/// The decimal number that `rust_decimal` reads from a text, as mantissa and
/// scale, or `None` where it rejects the text.
pub uninterp spec fn parsed_decimal(text: Seq<char>) -> Option<(i128, u32)>;

/// The text that `rust_decimal` writes for the number with the given
/// mantissa and scale.
pub uninterp spec fn decimal_text(mantissa: i128, scale: u32) -> Seq<char>;

/// The number `mantissa / 10^scale`.
#[derive(Debug, Clone, Copy, PartialEq, Eq, Structural)]
pub struct DecimalNumber {
    pub mantissa: i128,
    pub scale: u32,
}

/// Reads a decimal number with `Decimal::from_str_exact` and takes it apart
/// with `Decimal::mantissa` and `Decimal::scale`.
///
/// Believed of `rust_decimal`: the outcome depends on the text alone, the
/// scale of a number it accepts is at most 28 and its mantissa has at most 96
/// bits.
#[verifier::external_body]
fn read_decimal(text: &str) -> (parsed: Option<(i128, u32)>)
    ensures
        parsed == parsed_decimal(text@),
        parsed matches Some((mantissa, scale)) ==> scale <= MAX_SCALE && -MAX_MANTISSA <= mantissa
            <= MAX_MANTISSA,
{
    match Decimal::from_str_exact(text) {
        Ok(number) => Some((number.mantissa(), number.scale())),
        Err(_) => None,
    }
}

/// Writes a decimal number with `Decimal::from_i128_with_scale` and its
/// `to_string`.
///
/// Believed of `rust_decimal`: the text depends on mantissa and scale alone.
/// The bounds keep `from_i128_with_scale` from panicking.
#[verifier::external_body]
fn write_decimal(mantissa: i128, scale: u32) -> (text: String)
    requires
        scale <= MAX_SCALE,
        -MAX_MANTISSA <= mantissa <= MAX_MANTISSA,
    ensures
        text@ == decimal_text(mantissa, scale),
{
    Decimal::from_i128_with_scale(mantissa, scale).to_string()
}

/// Ten to the power `n`, for `n` up to [`MAX_SCALE`].
pub fn power_of_ten(n: u32) -> (p: i128)
    requires
        n <= MAX_SCALE,
    ensures
        p == pow10(n as nat),
        1 <= p <= 10_000_000_000_000_000_000_000_000_000,
{
    let mut p: i128 = 1;
    let mut i: u32 = 0;
    while i < n
        invariant
            i <= n <= MAX_SCALE,
            p == pow10(i as nat),
            1 <= p,
            p * pow10((MAX_SCALE - i) as nat) == pow10(MAX_SCALE as nat),
        decreases n - i,
    {
        proof {
            lemma_pow10_28();
            let rest = pow10((MAX_SCALE - i - 1) as nat);
            assert(pow10((MAX_SCALE - i) as nat) == 10 * rest);
            assert(rest >= 1) by {
                lemma_pow10_positive((MAX_SCALE - i - 1) as nat);
            }
            assert(p * (10 * rest) == (p * 10) * rest) by (nonlinear_arith);
            assert(p * 10 <= (p * 10) * rest) by (nonlinear_arith)
                requires
                    rest >= 1,
                    p >= 1,
            ;
        }
        p = p * 10;
        i = i + 1;
    }
    proof {
        lemma_pow10_28();
        lemma_pow10_positive((MAX_SCALE - n) as nat);
        assert(p <= p * pow10((MAX_SCALE - n) as nat)) by (nonlinear_arith)
            requires
                pow10((MAX_SCALE - n) as nat) >= 1,
                p >= 1,
        ;
    }
    p
}

/// A power of ten is at least one.
pub proof fn lemma_pow10_positive(n: nat)
    ensures
        pow10(n) >= 1,
    decreases n,
{
    if n > 0 {
        lemma_pow10_positive((n - 1) as nat);
    }
}

/// Ten to the power 28, written out.
pub proof fn lemma_pow10_28()
    ensures
        pow10(28) == 10_000_000_000_000_000_000_000_000_000,
{
    reveal_with_fuel(pow10, 30);
}

impl DecimalNumber {
    /// Scale and mantissa are within what a decimal number can hold.
    pub open spec fn well_formed(self) -> bool {
        self.scale <= MAX_SCALE && -MAX_MANTISSA <= self.mantissa <= MAX_MANTISSA
    }

    /// Tells whether scale and mantissa are within what a decimal number
    /// can hold.
    pub fn is_well_formed(&self) -> (ok: bool)
        ensures
            ok == self.well_formed(),
    {
        self.scale <= MAX_SCALE && -MAX_MANTISSA <= self.mantissa && self.mantissa
            <= MAX_MANTISSA
    }

    /// The number is at least `hundredths / 100`.
    pub open spec fn at_least(self, hundredths: int) -> bool {
        self.mantissa * 100 >= hundredths * pow10(self.scale as nat)
    }

    /// The number is at most `hundredths / 100`.
    pub open spec fn at_most(self, hundredths: int) -> bool {
        self.mantissa * 100 <= hundredths * pow10(self.scale as nat)
    }

    /// The number in hundredths, rounded to the nearest whole hundredth and
    /// away from zero from the middle between two.
    pub open spec fn hundredths(self) -> int {
        let doubled = self.mantissa * 200;
        let unit = pow10(self.scale as nat);
        if doubled >= 0 {
            (doubled + unit) / (2 * unit)
        } else {
            -((-doubled + unit) / (2 * unit))
        }
    }

    /// The number in hundredths, rounded to the nearest whole hundredth.
    pub fn to_hundredths(&self) -> (whole: i128)
        requires
            self.well_formed(),
        ensures
            whole == self.hundredths(),
    {
        let unit: i128 = power_of_ten(self.scale);
        let doubled: i128 = self.mantissa * 200;
        if doubled >= 0 {
            (doubled + unit) / (2 * unit)
        } else {
            -((-doubled + unit) / (2 * unit))
        }
    }

    /// Reads a decimal number from text such as `55.6050`.
    pub fn parse(text: &str) -> (number: Option<DecimalNumber>)
        ensures
            number is Some <==> parsed_decimal(text@) is Some,
            number matches Some(n) ==> n.well_formed() && parsed_decimal(text@) == Some(
                (n.mantissa, n.scale),
            ),
    {
        match read_decimal(text) {
            Some((mantissa, scale)) => Some(DecimalNumber { mantissa, scale }),
            None => None,
        }
    }

    /// The number as text.
    pub fn to_string(&self) -> (text: String)
        requires
            self.well_formed(),
        ensures
            text@ == decimal_text(self.mantissa, self.scale),
    {
        write_decimal(self.mantissa, self.scale)
    }

    /// Tells whether the number lies between `low / 100` and `high / 100`,
    /// both included.
    pub fn is_between(&self, low: i32, high: i32) -> (inside: bool)
        requires
            self.well_formed(),
        ensures
            inside == (self.at_least(low as int) && self.at_most(high as int)),
    {
        let unit: i128 = power_of_ten(self.scale);
        proof {
            assert(-0x8000_0000 * 10_000_000_000_000_000_000_000_000_000 <= low * unit
                <= 0x8000_0000 * 10_000_000_000_000_000_000_000_000_000) by (nonlinear_arith)
                requires
                    -0x8000_0000 <= low <= 0x8000_0000,
                    1 <= unit <= 10_000_000_000_000_000_000_000_000_000,
            ;
            assert(-0x8000_0000 * 10_000_000_000_000_000_000_000_000_000 <= high * unit
                <= 0x8000_0000 * 10_000_000_000_000_000_000_000_000_000) by (nonlinear_arith)
                requires
                    -0x8000_0000 <= high <= 0x8000_0000,
                    1 <= unit <= 10_000_000_000_000_000_000_000_000_000,
            ;
        }
        let scaled: i128 = self.mantissa * 100;
        let floor: i128 = (low as i128) * unit;
        let ceiling: i128 = (high as i128) * unit;
        floor <= scaled && scaled <= ceiling
    }
}

} // verus!
