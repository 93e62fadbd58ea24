//! Overworld odds and ends that feed the battle core: wild-encounter
//! spawning, random team selection, and the player's velocity decay.

use vstd::prelude::*;
use crate::battle::TeamMember;
use crate::monster::MAX_HEALTH;
use crate::rng::{choose_distinct_indices, rand_below};

verus! {

/// Velocity decay: with no input, a moving player is nudged one unit
/// toward rest; any input passes through unchanged.
pub fn resist(vel: i32, deltav: i32) -> (r: i32)
    ensures
        r == (if deltav != 0 {
            deltav as int
        } else if vel > 0 {
            -1int
        } else if vel < 0 {
            1int
        } else {
            0int
        }),
{
    if deltav == 0 {
        if vel > 0 {
            -1
        } else if vel < 0 {
            1
        } else {
            deltav
        }
    } else {
        deltav
    }
}

/// One wild-encounter check: a 1-in-100 draw decides whether a battle
/// starts. The draw is random, so nothing more than its range is known.
pub fn random_spawn() -> bool {
    let ran = rand_below(100);
    ran == 2
}

/// Picks a team of `num` distinct random species from a dex of
/// `num_species` monsters (all of them when fewer exist), each at full
/// health.
pub fn select_random_team(num_species: usize, num: usize) -> (team: Vec<TeamMember>)
    ensures
        team@.len() == (if num <= num_species {
            num as int
        } else {
            num_species as int
        }),
        forall|i: int|
            0 <= i < team@.len() ==> (#[trigger] team@[i]).species < num_species && team@[i].health
                == MAX_HEALTH,
        forall|i: int, j: int|
            0 <= i < j < team@.len() ==> team@[i].species != team@[j].species,
{
    let picks = choose_distinct_indices(num_species, num);
    let mut team: Vec<TeamMember> = Vec::new();
    let mut i: usize = 0;
    while i < picks.len()
        invariant
            i <= picks@.len(),
            team@.len() == i,
            forall|k: int| 0 <= k < picks@.len() ==> (#[trigger] picks@[k]) < num_species,
            forall|k1: int, k2: int|
                0 <= k1 < k2 < picks@.len() ==> picks@[k1] != picks@[k2],
            forall|k: int|
                0 <= k < i ==> (#[trigger] team@[k]).species == picks@[k] && team@[k].health
                    == MAX_HEALTH,
        decreases picks@.len() - i,
    {
        team.push(TeamMember { species: picks[i], health: MAX_HEALTH });
        i = i + 1;
    }
    team
}

} // verus!
