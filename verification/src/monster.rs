//! Static type and stat model: elemental types, moves, monster species,
//! the type-effectiveness table, and the damage formula.
//!
//! Multipliers are carried as integers so that every quantity is exact:
//! type effectiveness and the same-type-attack bonus are held in half
//! units (a stored value of 4 means a 2x multiplier), stat-stage scaling
//! is held in eighths (a stage of `s` scales a stat by `(8 + s) / 8`),
//! and health and damage are held in centipoints (100 per display point).

use vstd::prelude::*;
use vstd::arithmetic::div_mod::{
    lemma_div_basics_1, lemma_div_is_ordered, lemma_div_is_ordered_by_denominator,
};
use vstd::arithmetic::mul::lemma_mul_nonnegative;

verus! {

/// Stat stages are clamped to `[-STAGE_LIMIT, STAGE_LIMIT]`.
pub const STAGE_LIMIT: i32 = 6;

/// Upper bound on base power and on attack and defense stats, so that the
/// damage numerator always fits in a `u64`.
pub const MAX_STAT: u32 = 1000000;

/// Full health in centipoints (100.00 display points).
pub const MAX_HEALTH: u32 = 10000;

/// The fixed set of elemental types. `Normal` stands for every type that
/// has no entry in the effectiveness table; all its matchups are neutral.
#[derive(Clone, Copy, PartialEq, Eq, Structural, Debug)]
pub enum ElementType {
    Grass,
    Fire,
    Water,
    Electric,
    Ground,
    Flying,
    Normal,
}

/// A move definition. `damage` is the base power; 0 marks a status-only
/// move that deals no damage and produces no effectiveness message.
/// The four stage fields are deltas applied to the stat-stage counters
/// of whichever side uses the move.
pub struct Move {
    pub name: String,
    pub damage: u32,
    pub self_attack_stages: i32,
    pub self_defense_stages: i32,
    pub opp_attack_stages: i32,
    pub opp_defense_stages: i32,
    pub attack_type: ElementType,
    pub effect: String,
}

/// A monster species: base stats, its elemental type, and its four known
/// moves as indices into the move table of the owning [`MonsterDex`].
pub struct Monster {
    pub attack_stat: u32,
    pub defense_stat: u32,
    pub moves: Vec<usize>,
    pub monster_type: ElementType,
}

/// The arena of static definitions, loaded once and shared read-only:
/// every species refers to its moves by index into `moves`, and every
/// team member refers to its species by index into `monsters`.
pub struct MonsterDex {
    pub moves: Vec<Move>,
    pub monsters: Vec<Monster>,
}

impl Move {
    /// Base power small enough that the damage numerator fits in a `u64`.
    pub open spec fn wf(&self) -> bool {
        self.damage <= MAX_STAT
    }
}

impl Monster {
    /// Stats bounded, defense positive (it is a divisor), and exactly
    /// four known moves, all pointing into a move table of `num_moves`.
    pub open spec fn wf(&self, num_moves: int) -> bool {
        &&& self.attack_stat <= MAX_STAT
        &&& 1 <= self.defense_stat <= MAX_STAT
        &&& self.moves@.len() == 4
        &&& forall|i: int| 0 <= i < 4 ==> #[trigger] self.moves@[i] < num_moves
    }
}

impl MonsterDex {
    pub open spec fn wf(&self) -> bool {
        &&& forall|i: int| 0 <= i < self.moves@.len() ==> (#[trigger] self.moves@[i]).wf()
        &&& forall|i: int|
            0 <= i < self.monsters@.len() ==> (#[trigger] self.monsters@[i]).wf(
                self.moves@.len() as int,
            )
    }
}

/// The type-effectiveness table, in half units: 0 is "no effect",
/// 1 is "not very effective" (0.5x), 2 is neutral (1x), and 4 is
/// "super effective" (2x). Pairs without an entry are neutral.
pub open spec fn spec_type_effectiveness(
    attack_type: ElementType,
    defense_type: ElementType,
) -> u32 {
    match attack_type {
        ElementType::Grass => match defense_type {
            ElementType::Fire => 1u32,
            ElementType::Water => 4u32,
            ElementType::Grass => 1u32,
            ElementType::Ground => 4u32,
            ElementType::Flying => 1u32,
            _ => 2u32,
        },
        ElementType::Fire => match defense_type {
            ElementType::Fire => 1u32,
            ElementType::Water => 1u32,
            ElementType::Grass => 4u32,
            _ => 2u32,
        },
        ElementType::Water => match defense_type {
            ElementType::Fire => 4u32,
            ElementType::Water => 1u32,
            ElementType::Grass => 1u32,
            ElementType::Ground => 4u32,
            _ => 2u32,
        },
        ElementType::Electric => match defense_type {
            ElementType::Water => 4u32,
            ElementType::Electric => 1u32,
            ElementType::Grass => 1u32,
            ElementType::Ground => 0u32,
            ElementType::Flying => 4u32,
            _ => 2u32,
        },
        ElementType::Ground => match defense_type {
            ElementType::Fire => 4u32,
            ElementType::Electric => 4u32,
            ElementType::Grass => 1u32,
            ElementType::Flying => 0u32,
            _ => 2u32,
        },
        ElementType::Flying => match defense_type {
            ElementType::Grass => 4u32,
            ElementType::Electric => 1u32,
            _ => 2u32,
        },
        ElementType::Normal => 2u32,
    }
}

/// Looks up the effectiveness multiplier, in half units, of a move of
/// `attack_type` against a species of `defense_type`. Defined for every
/// ordered pair of types, and the result is always one of 0, 1, 2 or 4
/// (that is, one of the multipliers 0, 0.5, 1 or 2).
pub fn type_effectiveness(attack_type: ElementType, defense_type: ElementType) -> (r: u32)
    ensures
        r == spec_type_effectiveness(attack_type, defense_type),
        r == 0 || r == 1 || r == 2 || r == 4,
{
    match attack_type {
        ElementType::Grass => match defense_type {
            ElementType::Fire => 1,
            ElementType::Water => 4,
            ElementType::Grass => 1,
            ElementType::Ground => 4,
            ElementType::Flying => 1,
            _ => 2,
        },
        ElementType::Fire => match defense_type {
            ElementType::Fire => 1,
            ElementType::Water => 1,
            ElementType::Grass => 4,
            _ => 2,
        },
        ElementType::Water => match defense_type {
            ElementType::Fire => 4,
            ElementType::Water => 1,
            ElementType::Grass => 1,
            ElementType::Ground => 4,
            _ => 2,
        },
        ElementType::Electric => match defense_type {
            ElementType::Water => 4,
            ElementType::Electric => 1,
            ElementType::Grass => 1,
            ElementType::Ground => 0,
            ElementType::Flying => 4,
            _ => 2,
        },
        ElementType::Ground => match defense_type {
            ElementType::Fire => 4,
            ElementType::Electric => 4,
            ElementType::Grass => 1,
            ElementType::Flying => 0,
            _ => 2,
        },
        ElementType::Flying => match defense_type {
            ElementType::Grass => 4,
            ElementType::Electric => 1,
            _ => 2,
        },
        ElementType::Normal => 2,
    }
}

/// Same-type-attack bonus in half units: 4 (a 2x multiplier) when the
/// move's type equals the attacker's species type, else 2 (neutral).
pub open spec fn spec_stab_bonus(type1: ElementType, type2: ElementType) -> u32 {
    if type1 == type2 {
        4u32
    } else {
        2u32
    }
}

/// Returns the same-type-attack bonus, in half units.
pub fn stab_bonus(type1: ElementType, type2: ElementType) -> (r: u32)
    ensures
        r == spec_stab_bonus(type1, type2),
{
    if type1 == type2 {
        4
    } else {
        2
    }
}

/// The effectiveness message owed for a move of base power `power` whose
/// type multiplier is `eff` (in half units): no message for a status move
/// (power 0) or a neutral matchup, else the fixed phrase for the matchup.
pub open spec fn spec_effect_message(power: u32, eff: u32) -> Option<Seq<char>> {
    if power == 0 {
        None
    } else if eff == 4 {
        Some("It was super effective!"@)
    } else if eff == 1 {
        Some("It was not very effective."@)
    } else if eff == 0 {
        Some("It had no effect."@)
    } else {
        None
    }
}

/// Maps a move and the defender's type to the human-readable
/// effectiveness message, gated on the move's own base power: a move
/// that deals no damage produces no message whatever the matchup.
pub fn str_effectiveness(attack: &Move, defense_type: ElementType) -> (r: Option<String>)
    ensures
        ({
            let msg = spec_effect_message(
                attack.damage,
                spec_type_effectiveness(attack.attack_type, defense_type),
            );
            &&& r.is_some() == msg.is_some()
            &&& r matches Some(s) ==> s@ == msg.unwrap()
        }),
{
    if attack.damage == 0 {
        return None;
    }
    let a = type_effectiveness(attack.attack_type, defense_type);
    if a == 4 {
        Some(String::from_str("It was super effective!"))
    } else if a == 1 {
        Some(String::from_str("It was not very effective."))
    } else if a == 0 {
        Some(String::from_str("It had no effect."))
    } else {
        None
    }
}

/// The damage formula over exact integers, in centipoints.
///
/// `effective_attack` and `effective_defense` are the stage-scaled stats
/// in eighths (`stat * (8 + stage)`), and `stab` and `type_bonus` are in
/// half units, so the real-number formula
/// `30 * power * (att / def) / 100 * stab * bonus` in centipoints becomes
/// the quotient below: the two factors of 8 cancel, the centipoint
/// scale 100 cancels against the formula's division by 100, and the
/// two half-unit factors leave the explicit division by 4.
pub open spec fn spec_damage(
    power: int,
    effective_attack: int,
    effective_defense: int,
    stab: int,
    type_bonus: int,
) -> int {
    (30 * power * effective_attack * stab * type_bonus) / (effective_defense * 4)
}

/// Computes the damage, in centipoints, dealt by a move of base power
/// `power` given the stage-scaled stats in eighths and the two bonus
/// multipliers in half units.
pub fn damage_calc(
    power: u32,
    effective_attack: u64,
    effective_defense: u64,
    stab: u32,
    type_bonus: u32,
) -> (d: u64)
    requires
        power <= MAX_STAT,
        effective_attack <= 14 * MAX_STAT,
        1 <= effective_defense <= 14 * MAX_STAT,
        stab == 2 || stab == 4,
        type_bonus <= 4,
    ensures
        d == spec_damage(
            power as int,
            effective_attack as int,
            effective_defense as int,
            stab as int,
            type_bonus as int,
        ),
{
    proof {
        let p = power as int;
        let ea = effective_attack as int;
        let s = stab as int;
        let t = type_bonus as int;
        assert(30 * p * ea <= 420000000000000 && 0 <= 30 * p * ea) by (nonlinear_arith)
            requires
                0 <= p <= 1000000,
                0 <= ea <= 14000000,
        ;
        assert(30 * p * ea * s <= 4 * 420000000000000 && 0 <= 30 * p * ea * s)
            by (nonlinear_arith)
            requires
                0 <= 30 * p * ea <= 420000000000000,
                0 <= s <= 4,
        ;
        assert(30 * p * ea * s * t <= 16 * 420000000000000 && 0 <= 30 * p * ea * s * t)
            by (nonlinear_arith)
            requires
                0 <= 30 * p * ea * s <= 4 * 420000000000000,
                0 <= t <= 4,
        ;
    }
    (30 * (power as u64) * effective_attack * (stab as u64) * (type_bonus as u64)) / (
    effective_defense * 4)
}

/// Damage is monotonically non-decreasing in the attacker's effective
/// attack, holding every other factor fixed.
pub proof fn lemma_damage_monotonic_attack(
    power: int,
    att1: int,
    att2: int,
    def: int,
    stab: int,
    type_bonus: int,
)
    requires
        0 <= power,
        0 <= att1 <= att2,
        1 <= def,
        0 <= stab,
        0 <= type_bonus,
    ensures
        spec_damage(power, att1, def, stab, type_bonus) <= spec_damage(
            power,
            att2,
            def,
            stab,
            type_bonus,
        ),
{
    let n1 = 30 * power * att1 * stab * type_bonus;
    let n2 = 30 * power * att2 * stab * type_bonus;
    assert(30 * power * att1 <= 30 * power * att2) by (nonlinear_arith)
        requires
            0 <= power,
            att1 <= att2,
    ;
    assert(30 * power * att1 * stab <= 30 * power * att2 * stab) by (nonlinear_arith)
        requires
            30 * power * att1 <= 30 * power * att2,
            0 <= stab,
    ;
    assert(n1 <= n2) by (nonlinear_arith)
        requires
            30 * power * att1 * stab <= 30 * power * att2 * stab,
            0 <= type_bonus,
            n1 == 30 * power * att1 * stab * type_bonus,
            n2 == 30 * power * att2 * stab * type_bonus,
    ;
    lemma_div_is_ordered(n1, n2, def * 4);
}

/// Damage is monotonically non-increasing in the defender's effective
/// defense, holding every other factor fixed.
pub proof fn lemma_damage_antitone_defense(
    power: int,
    att: int,
    def1: int,
    def2: int,
    stab: int,
    type_bonus: int,
)
    requires
        0 <= power,
        0 <= att,
        1 <= def1 <= def2,
        0 <= stab,
        0 <= type_bonus,
    ensures
        spec_damage(power, att, def2, stab, type_bonus) <= spec_damage(
            power,
            att,
            def1,
            stab,
            type_bonus,
        ),
{
    let n = 30 * power * att * stab * type_bonus;
    lemma_mul_nonnegative(30 * power, att);
    lemma_mul_nonnegative(30 * power * att, stab);
    lemma_mul_nonnegative(30 * power * att * stab, type_bonus);
    lemma_div_is_ordered_by_denominator(n, def1 * 4, def2 * 4);
}

/// Damage is never negative: the formula's numerator and denominator
/// are both non-negative products.
pub proof fn lemma_damage_nonneg(
    power: int,
    effective_attack: int,
    effective_defense: int,
    stab: int,
    type_bonus: int,
)
    requires
        0 <= power,
        0 <= effective_attack,
        1 <= effective_defense,
        0 <= stab,
        0 <= type_bonus,
    ensures
        0 <= spec_damage(power, effective_attack, effective_defense, stab, type_bonus),
{
    let n = 30 * power * effective_attack * stab * type_bonus;
    lemma_mul_nonnegative(30 * power, effective_attack);
    lemma_mul_nonnegative(30 * power * effective_attack, stab);
    lemma_mul_nonnegative(30 * power * effective_attack * stab, type_bonus);
    lemma_div_basics_1(effective_defense * 4);
    lemma_div_is_ordered(0, n, effective_defense * 4);
}

/// A status move is never announced: a move of base power 0 produces
/// no effectiveness message, whatever the type matchup.
pub proof fn lemma_status_move_no_message(eff: u32)
    ensures
        spec_effect_message(0, eff) is None,
{
}

impl MonsterDex {
    /// Load-time data-integrity check: every move and species within
    /// the bounds the battle engine relies on, every move reference
    /// resolving into the move table. Returns exactly whether the dex
    /// is well-formed.
    pub fn validate(&self) -> (b: bool)
        ensures
            b == self.wf(),
    {
        let mut i: usize = 0;
        while i < self.moves.len()
            invariant
                i <= self.moves@.len(),
                forall|k: int| 0 <= k < i ==> (#[trigger] self.moves@[k]).wf(),
            decreases self.moves@.len() - i,
        {
            if self.moves[i].damage > MAX_STAT {
                return false;
            }
            i = i + 1;
        }
        let mut j: usize = 0;
        while j < self.monsters.len()
            invariant
                j <= self.monsters@.len(),
                forall|k: int|
                    0 <= k < j ==> (#[trigger] self.monsters@[k]).wf(self.moves@.len() as int),
            decreases self.monsters@.len() - j,
        {
            let m = &self.monsters[j];
            if m.attack_stat > MAX_STAT || m.defense_stat < 1 || m.defense_stat > MAX_STAT
                || m.moves.len() != 4 {
                return false;
            }
            let mut k: usize = 0;
            while k < 4
                invariant
                    k <= 4,
                    m.moves@.len() == 4,
                    m == self.monsters@[j as int],
                    j < self.monsters@.len(),
                    forall|l: int| 0 <= l < k ==> #[trigger] m.moves@[l] < self.moves@.len(),
                decreases 4 - k,
            {
                if m.moves[k] >= self.moves.len() {
                    return false;
                }
                k = k + 1;
            }
            j = j + 1;
        }
        true
    }
}

} // verus!
