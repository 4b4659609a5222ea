//! Decimal numbers as a mantissa and a count of fractional digits.

use vstd::prelude::*;

verus! {

/// The most fractional digits a decimal carries.
pub const MAX_SCALE: u32 = 28;

/// Exclusive bound on a mantissa's magnitude (96 bits).
pub const MANTISSA_LIMIT: i128 = 0x1_0000_0000_0000_0000_0000_0000;

/// `10^n`.
pub open spec fn pow10(n: nat) -> int
    decreases n,
{
    if n == 0 {
        1
    } else {
        10 * pow10((n - 1) as nat)
    }
}

pub proof fn lemma_pow10_pos(n: nat)
    ensures
        pow10(n) >= 1,
    decreases n,
{
    if n > 0 {
        lemma_pow10_pos((n - 1) as nat);
    }
}

pub proof fn lemma_pow10_add(a: nat, b: nat)
    ensures
        pow10(a + b) == pow10(a) * pow10(b),
    decreases a,
{
    if a > 0 {
        lemma_pow10_add((a - 1) as nat, b);
        assert(pow10(a + b) == 10 * pow10((a - 1 + b) as nat));
        assert(10 * (pow10((a - 1) as nat) * pow10(b)) == (10 * pow10((a - 1) as nat)) * pow10(b))
            by (nonlinear_arith);
    }
}

pub proof fn lemma_pow10_mono(a: nat, b: nat)
    requires
        a <= b,
    ensures
        pow10(a) <= pow10(b),
    decreases b,
{
    if a < b {
        lemma_pow10_mono(a, (b - 1) as nat);
        lemma_pow10_pos((b - 1) as nat);
    }
}

/// `10^28`, the step of the finest scale.
pub proof fn lemma_pow10_max()
    ensures
        pow10(MAX_SCALE as nat) == 10000000000000000000000000000,
{
    reveal_with_fuel(pow10, 29);
}

/// `10^n` for the scales a decimal can have.
pub fn pow10_exec(n: u32) -> (r: i128)
    requires
        n <= MAX_SCALE,
    ensures
        r == pow10(n as nat),
        r <= pow10(MAX_SCALE as nat),
{
    proof {
        lemma_pow10_mono(n as nat, MAX_SCALE as nat);
        lemma_pow10_max();
    }
    let mut r: i128 = 1;
    let mut i: u32 = 0;
    while i < n
        invariant
            i <= n <= MAX_SCALE,
            r == pow10(i as nat),
            pow10(n as nat) <= 10000000000000000000000000000,
        decreases n - i,
    {
        proof {
            lemma_pow10_mono((i + 1) as nat, n as nat);
            lemma_pow10_pos(i as nat);
        }
        assert(pow10((i + 1) as nat) == 10 * pow10(i as nat));
        r = r * 10;
        i = i + 1;
    }
    r
}

/// Nearest integer to `n / d` for `n >= 0`, `d > 0`, halves going to the even neighbour.
pub open spec fn round_half_even(n: int, d: int) -> int {
    let q = n / d;
    let r = n % d;
    if 2 * r > d || (2 * r == d && q % 2 == 1) {
        q + 1
    } else {
        q
    }
}

/// `round_half_even` extended symmetrically to negative numerators.
pub open spec fn round_signed(n: int, d: int) -> int {
    if n >= 0 {
        round_half_even(n, d)
    } else {
        -round_half_even(-n, d)
    }
}

/// The mantissa, at two fractional digits, of `m / 10^s` rounded to two places;
/// a number with at most two fractional digits keeps its mantissa.
pub open spec fn round2_mantissa(m: int, s: nat) -> int {
    if s <= 2 {
        m
    } else {
        round_signed(m, pow10((s - 2) as nat))
    }
}

/// A decimal number, `mantissa / 10^scale`.
#[derive(Clone, Copy, Debug, PartialEq, Eq, Structural)]
pub struct Dec {
    pub mantissa: i128,
    pub scale: u32,
}

impl Dec {
    /// The ranges that decimal text reads into.
    pub open spec fn wf(self) -> bool {
        &&& self.scale <= MAX_SCALE
        &&& -MANTISSA_LIMIT < self.mantissa < MANTISSA_LIMIT
    }

    /// The value as a whole number of `10^-28` steps.
    pub open spec fn units(self) -> int {
        self.mantissa * pow10((MAX_SCALE - self.scale) as nat)
    }

    pub fn new(mantissa: i128, scale: u32) -> (r: Dec)
        ensures
            r.mantissa == mantissa,
            r.scale == scale,
    {
        Dec { mantissa, scale }
    }

    pub fn zero() -> (r: Dec)
        ensures
            r.mantissa == 0,
            r.scale == 0,
            r.wf(),
    {
        Dec { mantissa: 0, scale: 0 }
    }
}

/// The mantissa and scale that decimal text reads as, if it reads as a decimal.
pub uninterp spec fn decimal_text(s: Seq<char>) -> Option<(int, int)>;

/// Relies on `<rust_decimal::Decimal as FromStr>::from_str` to read decimal text
/// (it refuses empty text), and on `Decimal::mantissa` and `Decimal::scale`, which
/// give a magnitude held in 96 bits and at most 28 fractional digits.
#[verifier::external_body]
pub(crate) fn parse_decimal(s: &str) -> (r: Option<Dec>)
    ensures
        r is None ==> decimal_text(s@) is None,
        r is Some ==> r->0.wf() && decimal_text(s@) == Some(
            (r->0.mantissa as int, r->0.scale as int),
        ),
        s@.len() == 0 ==> r is None,
{
    match s.parse::<rust_decimal::Decimal>() {
        Ok(d) => Some(Dec { mantissa: d.mantissa(), scale: d.scale() }),
        Err(_) => None,
    }
}

/// Rounding to two fractional digits, halves to even.
pub fn round_half_even_exec(n: i128, d: i128) -> (r: i128)
    requires
        0 <= n < 0x4000_0000_0000_0000_0000_0000_0000_0000,
        d > 0,
        d < 0x4000_0000_0000_0000_0000_0000_0000_0000,
    ensures
        r == round_half_even(n as int, d as int),
{
    let q = n / d;
    let rem = n % d;
    assert(q <= n) by (nonlinear_arith)
        requires
            q == n / d,
            n >= 0,
            d > 0,
    ;
    if 2 * rem > d || (2 * rem == d && q % 2 == 1) {
        q + 1
    } else {
        q
    }
}

/// The mantissa, at two fractional digits, of `m / 10^s` rounded to two places.
pub fn round2_parts(m: i128, s: u32) -> (r: i128)
    requires
        s <= MAX_SCALE + 2,
        -0x0100_0000_0000_0000_0000_0000_0000_0000 < m < 0x0100_0000_0000_0000_0000_0000_0000_0000,
    ensures
        r == round2_mantissa(m as int, s as nat),
        s > 2 ==> -m <= r <= m || m <= r <= -m,
{
    if s <= 2 {
        return m;
    }
    let p = pow10_exec(s - 2);
    proof {
        lemma_pow10_pos((s - 2) as nat);
        lemma_pow10_max();
    }
    if m >= 0 {
        let r = round_half_even_exec(m, p);
        proof {
            assert(0 <= r <= m) by (nonlinear_arith)
                requires
                    r == round_half_even(m as int, p as int),
                    m >= 0,
                    p >= 1,
            ;
        }
        r
    } else {
        let r = round_half_even_exec(-m, p);
        proof {
            assert(0 <= r <= -m) by (nonlinear_arith)
                requires
                    r == round_half_even(-m as int, p as int),
                    -m >= 0,
                    p >= 1,
            ;
        }
        -r
    }
}

/// The value of `d` rounded to two fractional digits, halves to even; a value
/// with at most two fractional digits is returned unchanged.
pub fn round_2decimal(d: Dec) -> (r: Dec)
    requires
        d.wf(),
    ensures
        r.wf(),
        r.scale == if d.scale <= 2 { d.scale } else { 2 },
        r.mantissa == round2_mantissa(d.mantissa as int, d.scale as nat),
{
    if d.scale <= 2 {
        return d;
    }
    Dec { mantissa: round2_parts(d.mantissa, d.scale), scale: 2 }
}

} // verus!
