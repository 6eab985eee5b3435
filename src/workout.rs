//! Choosing the day's workout from its intensity and a random number.

use vstd::prelude::*;

verus! {

/// A day's workout. The amounts are what the (slow) calculation made of the
/// intensity.
#[derive(Debug, Clone, Copy, PartialEq, Eq, Structural)]
pub enum Workout {
    /// This many pushups, then this many situps.
    Strength(u32),
    /// A day off.
    Rest,
    /// A run of this many minutes.
    Run(u32),
}

/// The workout for `intensity`: strength work below 25, else a rest day when
/// the random number is 3, else a run; `amount` is the calculated amount.
pub open spec fn workout_for(intensity: u32, random_number: u32, amount: u32) -> Workout {
    if intensity < 25 {
        Workout::Strength(amount)
    } else if random_number == 3 {
        Workout::Rest
    } else {
        Workout::Run(amount)
    }
}

/// Whether a workout needs the calculated amount at all.
pub fn needs_amount(intensity: u32, random_number: u32) -> (r: bool)
    ensures
        r == !(intensity >= 25 && random_number == 3),
{
    intensity < 25 || random_number != 3
}

/// The workout for `intensity` and `random_number`, given the amount the
/// calculation made of `intensity`.
pub fn plan_workout(intensity: u32, random_number: u32, amount: u32) -> (r: Workout)
    ensures
        r == workout_for(intensity, random_number, amount),
{
    if intensity < 25 {
        Workout::Strength(amount)
    } else if random_number == 3 {
        Workout::Rest
    } else {
        Workout::Run(amount)
    }
}

} // verus!
