//! Conversion of a raw score to a grade point.

use vstd::prelude::*;
use crate::decimal::{
    decimal_text, lemma_pow10_add, lemma_pow10_max, lemma_pow10_pos, parse_decimal, pow10, pow10_exec,
    Dec, MAX_SCALE,
};
use crate::text::same_text;

verus! {

/// The grade point, in hundredths, of a pass/fail or banded label.
pub open spec fn label_grade(s: Seq<char>) -> Option<int> {
    if s == "不及格"@ || s == "不合格"@ {
        Some(0)
    } else if s == "及格"@ || s == "合格"@ {
        Some(100)
    } else if s == "中"@ {
        Some(233)
    } else if s == "良"@ {
        Some(333)
    } else if s == "优"@ {
        Some(433)
    } else {
        None
    }
}

/// The grade point, in hundredths, of a numeric score given as a count of
/// `10^-28` steps; absent outside `[0, 100]`.
pub open spec fn band(u: int) -> Option<int> {
    let one = pow10(MAX_SCALE as nat);
    if u < 0 {
        None
    } else if u < 60 * one {
        Some(0)
    } else if u < 64 * one {
        Some(133)
    } else if u < 67 * one {
        Some(167)
    } else if u < 70 * one {
        Some(200)
    } else if u < 74 * one {
        Some(233)
    } else if u < 77 * one {
        Some(267)
    } else if u < 80 * one {
        Some(300)
    } else if u < 83 * one {
        Some(333)
    } else if u < 87 * one {
        Some(367)
    } else if u < 90 * one {
        Some(400)
    } else if u < 95 * one {
        Some(433)
    } else if u <= 100 * one {
        Some(467)
    } else {
        None
    }
}

/// The grade point, in hundredths, of raw score text: a label first, then a number.
pub open spec fn grade_for(s: Seq<char>) -> Option<int> {
    match label_grade(s) {
        Some(g) => Some(g),
        None => match decimal_text(s) {
            None => None,
            Some(ms) => band(ms.0 * pow10((MAX_SCALE - ms.1) as nat)),
        },
    }
}

/// The value, in `10^-28` steps, of a mantissa and scale read from text.
pub open spec fn text_units(ms: (int, int)) -> int {
    ms.0 * pow10((MAX_SCALE - ms.1) as nat)
}

/// A score below 0 or above 100 has no grade point; every score from 0 to 100 has one.
pub proof fn lemma_band_domain(u: int)
    ensures
        band(u) is None <==> (u < 0 || u > 100 * pow10(MAX_SCALE as nat)),
{
}

/// Over the scores from 0 to 100 the grade point is a step function that never
/// falls as the score rises.
pub proof fn lemma_band_monotone(u1: int, u2: int)
    requires
        0 <= u1 <= u2 <= 100 * pow10(MAX_SCALE as nat),
    ensures
        band(u1) is Some,
        band(u2) is Some,
        band(u1)->0 <= band(u2)->0,
{
}

/// For two numeric score texts (no labels) with values from 0 to 100, the one
/// with the higher value never gets the lower grade point.
pub proof fn lemma_grade_monotone(s1: Seq<char>, s2: Seq<char>)
    requires
        label_grade(s1) is None,
        label_grade(s2) is None,
        decimal_text(s1) is Some,
        decimal_text(s2) is Some,
        0 <= text_units(decimal_text(s1)->0) <= text_units(decimal_text(s2)->0) <= 100 * pow10(
            MAX_SCALE as nat,
        ),
    ensures
        grade_for(s1) is Some,
        grade_for(s2) is Some,
        grade_for(s1)->0 <= grade_for(s2)->0,
{
    lemma_band_monotone(text_units(decimal_text(s1)->0), text_units(decimal_text(s2)->0));
}

/// A numeric score text (no label) below 0 or above 100 has no grade point.
pub proof fn lemma_grade_out_of_range(s: Seq<char>)
    requires
        label_grade(s) is None,
        decimal_text(s) is Some,
        text_units(decimal_text(s)->0) < 0 || text_units(decimal_text(s)->0) > 100 * pow10(
            MAX_SCALE as nat,
        ),
    ensures
        grade_for(s) is None,
{
    lemma_band_domain(text_units(decimal_text(s)->0));
}

/// A grade point of the table: two fractional digits, from 0.00 to 4.67.
pub open spec fn is_grade_point(g: Dec) -> bool {
    g.scale == 2 && 0 <= g.mantissa <= 467
}

/// `m < k * 10^s` exactly when the value `m / 10^s` is below `k`, counted in `10^-28` steps.
proof fn lemma_below(m: int, s: nat, k: int)
    requires
        s <= MAX_SCALE,
    ensures
        (m < k * pow10(s)) == (m * pow10((MAX_SCALE - s) as nat) < k * pow10(MAX_SCALE as nat)),
        (m <= k * pow10(s)) == (m * pow10((MAX_SCALE - s) as nat) <= k * pow10(MAX_SCALE as nat)),
{
    let p = pow10(s);
    let q = pow10((MAX_SCALE - s) as nat);
    lemma_pow10_add(s, (MAX_SCALE - s) as nat);
    lemma_pow10_pos((MAX_SCALE - s) as nat);
    assert(k * pow10(MAX_SCALE as nat) == (k * p) * q) by (nonlinear_arith)
        requires
            pow10(MAX_SCALE as nat) == p * q,
    ;
    assert((m < k * p) == (m * q < (k * p) * q)) by (nonlinear_arith)
        requires
            q >= 1,
    ;
    assert((m <= k * p) == (m * q <= (k * p) * q)) by (nonlinear_arith)
        requires
            q >= 1,
    ;
}

/// The grade point of a decimal score, by the bands; `None` outside `[0, 100]`.
fn band_grade(d: Dec) -> (r: Option<i128>)
    requires
        d.wf(),
    ensures
        r is Some <==> band(d.units()) is Some,
        r is Some ==> r->0 == band(d.units())->0,
{
    let p = pow10_exec(d.scale);
    let m = d.mantissa;
    proof {
        lemma_pow10_max();
        lemma_pow10_pos(d.scale as nat);
        lemma_below(m as int, d.scale as nat, 60);
        lemma_below(m as int, d.scale as nat, 64);
        lemma_below(m as int, d.scale as nat, 67);
        lemma_below(m as int, d.scale as nat, 70);
        lemma_below(m as int, d.scale as nat, 74);
        lemma_below(m as int, d.scale as nat, 77);
        lemma_below(m as int, d.scale as nat, 80);
        lemma_below(m as int, d.scale as nat, 83);
        lemma_below(m as int, d.scale as nat, 87);
        lemma_below(m as int, d.scale as nat, 90);
        lemma_below(m as int, d.scale as nat, 95);
        lemma_below(m as int, d.scale as nat, 100);
        lemma_below(m as int, d.scale as nat, 0);
    }
    let g: i128 = if m < 0 {
        return None;
    } else if m < 60 * p {
        0
    } else if m < 64 * p {
        133
    } else if m < 67 * p {
        167
    } else if m < 70 * p {
        200
    } else if m < 74 * p {
        233
    } else if m < 77 * p {
        267
    } else if m < 80 * p {
        300
    } else if m < 83 * p {
        333
    } else if m < 87 * p {
        367
    } else if m < 90 * p {
        400
    } else if m < 95 * p {
        433
    } else if m <= 100 * p {
        467
    } else {
        return None;
    };
    Some(g)
}

/// The grade point of raw score text: a pass/fail or banded label, else a number
/// from 0 to 100 read by bands; `None` for anything else.
pub fn score_trans_grade(score: &str) -> (r: Option<Dec>)
    ensures
        r is Some <==> grade_for(score@) is Some,
        r is Some ==> is_grade_point(r->0) && r->0.mantissa == grade_for(score@)->0,
        score@.len() == 0 ==> r is None,
{
    proof {
        reveal_strlit("不及格");
        reveal_strlit("不合格");
        reveal_strlit("及格");
        reveal_strlit("合格");
        reveal_strlit("中");
        reveal_strlit("良");
        reveal_strlit("优");
    }
    let label: Option<i128> = if same_text(score, "不及格") || same_text(score, "不合格") {
        Some(0)
    } else if same_text(score, "及格") || same_text(score, "合格") {
        Some(100)
    } else if same_text(score, "中") {
        Some(233)
    } else if same_text(score, "良") {
        Some(333)
    } else if same_text(score, "优") {
        Some(433)
    } else {
        None
    };
    if let Some(g) = label {
        return Some(Dec { mantissa: g, scale: 2 });
    }
    match parse_decimal(score) {
        None => None,
        Some(d) => match band_grade(d) {
            Some(g) => Some(Dec { mantissa: g, scale: 2 }),
            None => None,
        },
    }
}

} // verus!
