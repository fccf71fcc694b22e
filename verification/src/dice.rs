//! Dice.

use vstd::prelude::*;
use rand::Rng;

verus! {

/// One draw from the thread's random number generator: `Rng::gen_range` of
/// the `rand` crate on `rand::thread_rng()`, with the bounds `low` and
/// `high`. The outcome is at least `low` and below `high`; the call panics
/// unless `low < high`.
#[verifier::external_body]
fn draw(low: usize, high: usize) -> (res: usize)
    requires
        low < high,
    ensures
        low <= res < high,
{
    rand::thread_rng().gen_range(low, high)
}

/// A number below `n`, by chance.
pub(crate) fn random_below(n: u8) -> (res: u8)
    requires
        n > 0,
    ensures
        res < n,
{
    draw(0, n as usize) as u8
}

/// A number from `low` up to but not including `high`, by chance.
pub(crate) fn random_between(low: u16, high: u16) -> (res: u16)
    requires
        low < high,
    ensures
        low <= res < high,
{
    draw(low as usize, high as usize) as u16
}

/// A position in a list of `n` elements, by chance.
pub(crate) fn random_index(n: usize) -> (res: usize)
    requires
        n > 0,
    ensures
        res < n,
{
    draw(0, n)
}

/// The number of values one die can show: a die without faces always shows 1.
pub open spec fn die_max(faces: u8) -> int {
    if faces == 0 { 1 } else { faces as int }
}

/// A signed total as the unsigned byte with the same low eight bits.
pub open spec fn as_byte(total: int) -> int {
    if total < 0 { total + 256 } else { total }
}

/// What a die with `faces` faces shows for the number `drawn`, which is
/// below the number of its faces: the face after it, counting from 1. A die
/// without faces always shows 1.
pub fn die_shows(faces: u8, drawn: u8) -> (res: u8)
    requires
        faces == 0 || drawn < faces,
    ensures
        res == if faces == 0 { 1 } else { drawn + 1 },
{
    if faces == 0 {
        1
    } else {
        drawn + 1
    }
}

/// Throws one die with `faces` faces, numbered from 1: it shows one of its
/// faces, whichever chance picks.
pub fn roll_one(faces: u8) -> (res: u8)
    ensures
        1 <= res <= die_max(faces),
{
    let drawn: u8 = if faces == 0 { 0 } else { random_below(faces) };
    die_shows(faces, drawn)
}

/// Throws `dice` dice with `faces` faces each and adds `modifier` to their
/// sum. The sum and the total are kept in a signed byte, which they must fit.
/// A total below zero comes back as the byte with the same bits.
pub fn roll(faces: u8, dice: u8, modifier: i8) -> (res: u8)
    requires
        dice * die_max(faces) <= i8::MAX,
        i8::MIN <= dice + modifier,
        dice * die_max(faces) + modifier <= i8::MAX,
    ensures
        exists|sum: int|
            dice <= sum <= dice * die_max(faces) && res == as_byte(#[trigger] (sum + modifier)),
        dice + modifier >= 0 ==> dice + modifier <= res <= dice * die_max(faces) + modifier,
{
    let mut sum: i8 = 0;
    let mut i: u8 = 0;
    while i < dice
        invariant
            i <= dice,
            i <= sum <= i * die_max(faces),
            dice * die_max(faces) <= i8::MAX,
        decreases dice - i,
    {
        let val: u8 = roll_one(faces);
        proof {
            assert((i + 1) * die_max(faces) == i * die_max(faces) + die_max(faces))
                by (nonlinear_arith);
            assert((i + 1) * die_max(faces) <= dice * die_max(faces)) by (nonlinear_arith)
                requires
                    i + 1 <= dice,
                    die_max(faces) >= 0,
            ;
        }
        sum = sum + val as i8;
        i += 1;
    }
    let total: i8 = sum + modifier;
    proof {
        assert(sum as int + modifier as int == total as int);
    }
    if total < 0 {
        (total as i16 + 256) as u8
    } else {
        total as u8
    }
}

} // verus!
