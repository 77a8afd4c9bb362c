//! The dice roller: the fixed set of die sizes, the random draw, and the
//! arithmetic of a roll's breakdown trace.

use vstd::prelude::*;

verus! {

/// The fixed set of die sizes the roller offers.
#[derive(PartialEq, Eq, Structural, Clone, Copy, Debug)]
pub enum DiceType {
    D4,
    D6,
    D8,
    D10,
    D12,
    D20,
    D100,
}

impl Default for DiceType {
    fn default() -> (r: Self)
        ensures
            r == DiceType::D4,
    {
        DiceType::D4
    }
}

pub open spec fn spec_dice_val(dice_type: DiceType) -> int {
    match dice_type {
        DiceType::D4 => 4,
        DiceType::D6 => 6,
        DiceType::D8 => 8,
        DiceType::D10 => 10,
        DiceType::D12 => 12,
        DiceType::D20 => 20,
        DiceType::D100 => 100,
    }
}

/// The number of faces of a die.
pub fn get_dice_val(dice_type: DiceType) -> (n: i32)
    ensures
        n == spec_dice_val(dice_type),
{
    match dice_type {
        DiceType::D4 => 4,
        DiceType::D6 => 6,
        DiceType::D8 => 8,
        DiceType::D10 => 10,
        DiceType::D12 => 12,
        DiceType::D20 => 20,
        DiceType::D100 => 100,
    }
}

/// Relies on rand's `Rng::gen_range` on the thread-local generator: a draw
/// from a non-empty inclusive integer range lies within that range.
#[verifier::external_body]
pub(crate) fn draw_in_range(low: i32, high: i32) -> (r: i32)
    requires
        low <= high,
    ensures
        low <= r <= high,
{
    let mut rng = rand::thread_rng();
    rand::Rng::gen_range(&mut rng, low..=high)
}

/// The grand total of a breakdown: each entry contributes its raw roll plus
/// its modifier.
pub open spec fn sum_rolls(s: Seq<(i32, i32)>) -> int
    decreases s.len(),
{
    if s.len() == 0 {
        0
    } else {
        sum_rolls(s.drop_last()) + s.last().0 + s.last().1
    }
}

/// The sum of the raw rolls alone.
pub open spec fn sum_raw(s: Seq<(i32, i32)>) -> int
    decreases s.len(),
{
    if s.len() == 0 {
        0
    } else {
        sum_raw(s.drop_last()) + s.last().0
    }
}

/// When every breakdown entry carries the same modifier, the grand total is
/// the sum of the raw rolls plus the modifier once per die.
pub proof fn lemma_total_decomposition(s: Seq<(i32, i32)>, m: i32)
    requires
        forall|i: int| 0 <= i < s.len() ==> (#[trigger] s[i]).1 == m,
    ensures
        sum_rolls(s) == sum_raw(s) + s.len() * m,
    decreases s.len(),
{
    if s.len() > 0 {
        assert(forall|i: int|
            0 <= i < s.drop_last().len() ==> (#[trigger] s.drop_last()[i]).1 == m);
        lemma_total_decomposition(s.drop_last(), m);
        assert(s.last().1 == m);
        assert((s.len() - 1) * m + m == s.len() * m) by (nonlinear_arith);
    }
}

/// A draw of the die's highest face is a critical success. The flag is
/// recomputed from the stored roll; it is never stored.
pub fn is_critical_success(roll: i32, dice_type: DiceType) -> (r: bool)
    ensures
        r == (roll == spec_dice_val(dice_type)),
{
    roll == get_dice_val(dice_type)
}

/// A draw of 1 is a critical failure, whatever the die.
pub fn is_critical_failure(roll: i32) -> (r: bool)
    ensures
        r == (roll == 1),
{
    roll == 1
}

} // verus!
