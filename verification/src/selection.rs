use crate::fraction::Fraction;
use vstd::prelude::*;

verus! {

/// The sum of `scores`.
pub open spec fn total(scores: Seq<u32>) -> nat
    decreases scores.len(),
{
    if scores.len() == 0 {
        0
    } else {
        total(scores.drop_last()) + scores.last() as nat
    }
}

/// The mean of `scores`, rounded down; 0 where there are none.
pub open spec fn average_of(scores: Seq<u32>) -> nat {
    if scores.len() == 0 {
        0
    } else {
        total(scores) / scores.len()
    }
}

/// `best` is the greatest of `scores`, or 0 where there are none.
pub open spec fn is_best(scores: Seq<u32>, best: u32) -> bool {
    &&& forall|i: int| 0 <= i < scores.len() ==> scores[i] <= best
    &&& if scores.len() == 0 {
        best == 0
    } else {
        scores.contains(best)
    }
}

/// A score is eligible when it is at least `(1 - margin) * best`, taken
/// exactly, with no rounding.
pub open spec fn is_eligible(score: u32, best: u32, margin: Fraction) -> bool {
    score * margin.denominator >= (margin.denominator - margin.numerator) * best
}

/// `chosen` lists, in rising order, the places of the eligible scores and no
/// others.
pub open spec fn is_selection(
    scores: Seq<u32>,
    best: u32,
    margin: Fraction,
    chosen: Seq<usize>,
) -> bool {
    &&& forall|a: int, b: int| 0 <= a < b < chosen.len() ==> chosen[a] < chosen[b]
    &&& forall|a: int|
        0 <= a < chosen.len() ==> (#[trigger] chosen[a]) < scores.len() && is_eligible(
            scores[chosen[a] as int],
            best,
            margin,
        )
    &&& forall|i: int|
        0 <= i < scores.len() && is_eligible(#[trigger] scores[i], best, margin)
            ==> chosen.contains(i as usize)
}

/// The best score is itself eligible, whatever the margin.
pub proof fn lemma_best_is_eligible(best: u32, margin: Fraction)
    requires
        margin.wf(),
    ensures
        is_eligible(best, best, margin),
{
    let d = margin.denominator as int;
    let n = margin.numerator as int;
    let b = best as int;
    assert(b * d >= (d - n) * b) by (nonlinear_arith)
        requires
            0 <= n <= d,
            0 <= b,
    ;
}

/// With no margin only the best scores are eligible; with the whole margin
/// every score is, and so is every score beside a best score of 0.
pub proof fn lemma_margin_extremes(score: u32, best: u32, denominator: u64)
    requires
        denominator > 0,
        score <= best,
    ensures
        is_eligible(score, best, (Fraction { numerator: 0, denominator })) <==> score == best,
        is_eligible(score, best, (Fraction { numerator: denominator, denominator })),
        forall|margin: Fraction| margin.wf() ==> #[trigger] is_eligible(score, 0, margin),
{
    assert forall|margin: Fraction| margin.wf() implies #[trigger] is_eligible(
        score,
        0,
        margin,
    ) by {
        let dm = margin.denominator as int;
        let nm = margin.numerator as int;
        let sc = score as int;
        assert(sc * dm >= (dm - nm) * 0) by (nonlinear_arith)
            requires
                dm > 0,
                sc >= 0,
        ;
    }
    let d = denominator as int;
    let s = score as int;
    let b = best as int;
    assert(s * d >= (d - 0) * b <==> s == b) by (nonlinear_arith)
        requires
            d > 0,
            0 <= s <= b,
    ;
    assert(s * d >= (d - d) * b) by (nonlinear_arith)
        requires
            d > 0,
            0 <= s,
    ;
}

/// In a population that is not empty, every selection holds a place.
pub proof fn lemma_selection_not_empty(
    scores: Seq<u32>,
    best: u32,
    margin: Fraction,
    chosen: Seq<usize>,
)
    requires
        margin.wf(),
        scores.len() > 0,
        is_best(scores, best),
        is_selection(scores, best, margin, chosen),
    ensures
        chosen.len() > 0,
{
    let i = choose|i: int| 0 <= i < scores.len() && scores[i] == best;
    lemma_best_is_eligible(best, margin);
    assert(is_eligible(scores[i], best, margin));
    assert(chosen.contains(i as usize));
}

/// What a generation's scores come to.
#[derive(Debug)]
pub struct Selection {
    /// The greatest score.
    pub best_score: u32,
    /// The mean score, rounded down.
    pub average_score: u32,
    /// The places of the controllers whose brains are to be merged.
    pub eligible: Vec<usize>,
}

/// Whether `score` is eligible beside the best score `best`.
pub fn eligible(score: u32, best: u32, margin: Fraction) -> (r: bool)
    requires
        margin.wf(),
    ensures
        r == is_eligible(score, best, margin),
{
    let rest = margin.denominator - margin.numerator;
    assert(score * margin.denominator <= 0xffff_ffff * 0xffff_ffff_ffff_ffff) by (nonlinear_arith)
        requires
            0 <= score <= 0xffff_ffff,
            0 <= margin.denominator <= 0xffff_ffff_ffff_ffff,
    ;
    assert(rest * best <= 0xffff_ffff_ffff_ffff * 0xffff_ffff) by (nonlinear_arith)
        requires
            0 <= best <= 0xffff_ffff,
            0 <= rest <= 0xffff_ffff_ffff_ffff,
    ;
    (score as u128) * (margin.denominator as u128) >= (rest as u128) * (best as u128)
}

} // verus!
