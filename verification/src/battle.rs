//! Battle engine: teams, battle state, the damage/stat-stage step of a
//! turn, and full turn resolution with faint, forced switch, team-wipe
//! and restore-on-loss handling.

use vstd::prelude::*;
use vstd::arithmetic::div_mod::lemma_div_basics_1;
use crate::monster::{
    Move, Monster, MonsterDex, spec_type_effectiveness, spec_stab_bonus, spec_damage,
    spec_effect_message, type_effectiveness, stab_bonus, str_effectiveness, damage_calc,
    MAX_HEALTH, MAX_STAT, STAGE_LIMIT,
};

verus! {

/// Which screen the game shows next; battle turns report whether play
/// stays in the battle or falls back to the overworld.
pub enum Scene {
    Intro,
    Hospital,
    Home,
    Overworld,
    Battle,
    GymOne,
    GymTwo,
    GymThree,
    GymFour,
}

/// One roster slot: a species (an index into the dex's monster table)
/// and its current health in centipoints, 0 meaning fainted.
#[derive(Clone, Copy, PartialEq, Eq, Structural, Debug)]
pub struct TeamMember {
    pub species: usize,
    pub health: u32,
}

/// The mutable state of one battle: whose turn it is, both rosters
/// (index 0 is the active combatant), and the four stat-stage counters,
/// each clamped to `[-STAGE_LIMIT, STAGE_LIMIT]`. The `self_*` counters
/// belong to the player's side, the `opp_*` counters to the enemy's.
pub struct BattleState {
    pub player_turn: bool,
    pub player_team: Vec<TeamMember>,
    pub enemy_team: Vec<TeamMember>,
    pub self_attack_stages: i32,
    pub self_defense_stages: i32,
    pub opp_attack_stages: i32,
    pub opp_defense_stages: i32,
}

/// The mathematical model of a [`BattleState`]: rosters as sequences
/// and stages as unbounded integers.
#[verifier::ext_equal]
pub struct BattleModel {
    pub player_turn: bool,
    pub player_team: Seq<TeamMember>,
    pub enemy_team: Seq<TeamMember>,
    pub self_attack_stages: int,
    pub self_defense_stages: int,
    pub opp_attack_stages: int,
    pub opp_defense_stages: int,
}

impl View for BattleState {
    type V = BattleModel;

    open spec fn view(&self) -> BattleModel {
        BattleModel {
            player_turn: self.player_turn,
            player_team: self.player_team@,
            enemy_team: self.enemy_team@,
            self_attack_stages: self.self_attack_stages as int,
            self_defense_stages: self.self_defense_stages as int,
            opp_attack_stages: self.opp_attack_stages as int,
            opp_defense_stages: self.opp_defense_stages as int,
        }
    }
}

/// A member is alive while it has health left.
pub open spec fn member_alive(m: TeamMember) -> bool {
    m.health > 0
}

/// The alive predicate as a first-class function, so that every filter
/// over a roster uses one and the same closure term.
pub open spec fn alive_pred() -> spec_fn(TeamMember) -> bool {
    |m: TeamMember| member_alive(m)
}

/// The fainted predicate, complement of [`alive_pred`].
pub open spec fn dead_pred() -> spec_fn(TeamMember) -> bool {
    |m: TeamMember| !member_alive(m)
}

/// Total roster health in centipoints.
pub open spec fn spec_total_health(team: Seq<TeamMember>) -> int
    decreases team.len(),
{
    if team.len() == 0 {
        0
    } else {
        spec_total_health(team.drop_last()) + team.last().health
    }
}

/// Number of alive members.
pub open spec fn spec_alive_count(team: Seq<TeamMember>) -> int {
    team.filter(alive_pred()).len() as int
}

/// The stable alive-first partition: alive members first, fainted
/// members after, relative order kept within each part.
pub open spec fn spec_partition_alive(team: Seq<TeamMember>) -> Seq<TeamMember> {
    team.filter(alive_pred()) + team.filter(dead_pred())
}

/// A roster is alive-first when no fainted member stands before an
/// alive one.
pub open spec fn team_alive_first(team: Seq<TeamMember>) -> bool {
    forall|i: int, j: int|
        0 <= i < j < team.len() && member_alive(#[trigger] team[j]) ==> member_alive(
            #[trigger] team[i],
        )
}

/// Roster well-formedness: 1 to 6 members, every species index in
/// range, every health at most full.
pub open spec fn team_wf(team: Seq<TeamMember>, num_species: int) -> bool {
    &&& 1 <= team.len() <= 6
    &&& forall|i: int|
        0 <= i < team.len() ==> (#[trigger] team[i]).species < num_species && team[i].health
            <= MAX_HEALTH
}

/// A stage counter within its clamp bounds.
pub open spec fn stage_ok(s: int) -> bool {
    -(STAGE_LIMIT as int) <= s <= STAGE_LIMIT as int
}

impl BattleModel {
    /// Both rosters well-formed against the dex and all four stage
    /// counters within the clamp bounds.
    pub open spec fn wf(&self, dex: MonsterDex) -> bool {
        &&& team_wf(self.player_team, dex.monsters@.len() as int)
        &&& team_wf(self.enemy_team, dex.monsters@.len() as int)
        &&& stage_ok(self.self_attack_stages)
        &&& stage_ok(self.self_defense_stages)
        &&& stage_ok(self.opp_attack_stages)
        &&& stage_ok(self.opp_defense_stages)
    }

    /// Both rosters keep the alive-first invariant.
    pub open spec fn teams_alive_first(&self) -> bool {
        team_alive_first(self.player_team) && team_alive_first(self.enemy_team)
    }
}

/// Filtering keeps a sequence whose members all satisfy the predicate.
proof fn lemma_filter_all<A>(s: Seq<A>, pred: spec_fn(A) -> bool)
    requires
        forall|i: int| 0 <= i < s.len() ==> pred(#[trigger] s[i]),
    ensures
        s.filter(pred) == s,
    decreases s.len(),
{
    reveal(Seq::filter);
    if s.len() > 0 {
        lemma_filter_all(s.drop_last(), pred);
        assert(s.drop_last().push(s.last()) =~= s);
    }
}

/// Filtering empties a sequence none of whose members satisfy the
/// predicate.
proof fn lemma_filter_none<A>(s: Seq<A>, pred: spec_fn(A) -> bool)
    requires
        forall|i: int| 0 <= i < s.len() ==> !pred(#[trigger] s[i]),
    ensures
        s.filter(pred) == Seq::<A>::empty(),
    decreases s.len(),
{
    reveal(Seq::filter);
    if s.len() > 0 {
        lemma_filter_none(s.drop_last(), pred);
    }
}

/// The alive-first partition of any roster is itself alive-first.
pub proof fn lemma_partition_alive_first(team: Seq<TeamMember>)
    ensures
        team_alive_first(spec_partition_alive(team)),
{
    broadcast use Seq::lemma_filter_pred;

    let a = team.filter(alive_pred());
    let d = team.filter(dead_pred());
    let p = spec_partition_alive(team);
    assert forall|i: int, j: int|
        0 <= i < j < p.len() && member_alive(#[trigger] p[j]) implies member_alive(
        #[trigger] p[i],
    ) by {
        assert(j < a.len()) by {
            if j >= a.len() {
                assert(p[j] == d[j - a.len()]);
            }
        }
        assert(p[i] == a[i]);
    }
}

/// An already-alive-first roster is unchanged by the partition.
pub proof fn lemma_partition_identity(team: Seq<TeamMember>)
    requires
        team_alive_first(team),
    ensures
        spec_partition_alive(team) == team,
    decreases team.len(),
{
    broadcast use Seq::lemma_filter_push;

    if team.len() == 0 {
        reveal(Seq::filter);
        assert(spec_partition_alive(team) =~= team);
    } else {
        let prefix = team.drop_last();
        let last = team.last();
        assert(prefix.push(last) =~= team);
        if member_alive(last) {
            assert forall|i: int| 0 <= i < team.len() implies member_alive(#[trigger] team[i]) by {
                if i < team.len() - 1 {
                    assert(member_alive(team[team.len() - 1]));
                }
            }
            lemma_filter_all(team, alive_pred());
            lemma_filter_none(team, dead_pred());
            assert(spec_partition_alive(team) =~= team);
        } else {
            assert(team_alive_first(prefix)) by {
                assert(forall|i: int|
                    0 <= i < prefix.len() ==> prefix[i] == #[trigger] team[i]);
            }
            lemma_partition_identity(prefix);
            assert(team.filter(alive_pred()) == prefix.filter(alive_pred()));
            assert(team.filter(dead_pred()) == prefix.filter(dead_pred()).push(last));
            assert(spec_partition_alive(team) =~= spec_partition_alive(prefix).push(last));
            assert(spec_partition_alive(prefix).push(last) =~= team);
        }
    }
}

/// Repartitioning is idempotent: partitioning an already-alive-first
/// roster (in particular, one the partition itself produced) changes
/// nothing.
pub proof fn lemma_repartition_idempotent(team: Seq<TeamMember>)
    ensures
        spec_partition_alive(spec_partition_alive(team)) == spec_partition_alive(team),
{
    lemma_partition_alive_first(team);
    lemma_partition_identity(spec_partition_alive(team));
}

/// Stable partition of a roster, alive members first: the exec
/// counterpart of [`spec_partition_alive`], applied after any mutation
/// so that index 0 stays an alive combatant while one exists.
pub fn verify_team(v: &Vec<TeamMember>) -> (r: Vec<TeamMember>)
    ensures
        r@ == spec_partition_alive(v@),
{
    broadcast use Seq::lemma_filter_push;

    let mut alive: Vec<TeamMember> = Vec::new();
    let mut dead: Vec<TeamMember> = Vec::new();
    let ghost pa = alive_pred();
    let ghost pd = dead_pred();
    proof {
        reveal(Seq::filter);
    }
    let mut i: usize = 0;
    while i < v.len()
        invariant
            i <= v.len(),
            alive@ == v@.take(i as int).filter(alive_pred()),
            dead@ == v@.take(i as int).filter(dead_pred()),
        decreases v.len() - i,
    {
        let item = v[i];
        proof {
            assert(v@.take(i + 1 as int) =~= v@.take(i as int).push(v@[i as int]));
            Seq::lemma_filter_push(v@.take(i as int), v@[i as int], alive_pred());
            Seq::lemma_filter_push(v@.take(i as int), v@[i as int], dead_pred());
        }
        if item.health > 0 {
            alive.push(item);
        } else {
            dead.push(item);
        }
        i = i + 1;
    }
    proof {
        assert(v@.take(v@.len() as int) =~= v@);
    }
    alive.append(&mut dead);
    alive
}

/// Decides turn order from the two active monsters' attack stats: the
/// player acts first exactly when its active attack stat is at least
/// the enemy's (ties favour the player).
pub fn turn_calc(dex: &MonsterDex, state: &BattleState) -> (b: bool)
    requires
        dex.wf(),
        state@.wf(*dex),
    ensures
        b == (dex.monsters@[state@.player_team[0].species as int].attack_stat
            >= dex.monsters@[state@.enemy_team[0].species as int].attack_stat),
{
    dex.monsters[state.player_team[0].species].attack_stat
        >= dex.monsters[state.enemy_team[0].species].attack_stat
}

/// Index of the first alive member of a roster, or `None` when every
/// member has fainted.
pub fn next_available_mon(v: &Vec<TeamMember>) -> (r: Option<usize>)
    ensures
        match r {
            Some(i) => i < v@.len() && member_alive(v@[i as int]) && forall|j: int|
                0 <= j < i ==> !member_alive(#[trigger] v@[j]),
            None => forall|j: int| 0 <= j < v@.len() ==> !member_alive(#[trigger] v@[j]),
        },
{
    let mut i: usize = 0;
    while i < v.len()
        invariant
            i <= v.len(),
            forall|j: int| 0 <= j < i ==> !member_alive(#[trigger] v@[j]),
        decreases v.len() - i,
    {
        if v[i].health > 0 {
            return Some(i);
        }
        i = i + 1;
    }
    None
}

/// Total roster health in centipoints.
pub fn total_team_health(team: &Vec<TeamMember>) -> (t: u64)
    requires
        team@.len() <= 6,
    ensures
        t == spec_total_health(team@),
        t <= team@.len() * 0x1_0000_0000,
{
    let mut t: u64 = 0;
    let mut i: usize = 0;
    while i < team.len()
        invariant
            i <= team.len(),
            team.len() <= 6,
            t == spec_total_health(team@.take(i as int)),
            t <= i * 0x1_0000_0000,
        decreases team.len() - i,
    {
        proof {
            assert(team@.take(i + 1 as int).drop_last() =~= team@.take(i as int));
            assert(team@.take(i + 1 as int).last() == team@[i as int]);
        }
        t = t + team[i].health as u64;
        i = i + 1;
    }
    proof {
        assert(team@.take(team@.len() as int) =~= team@);
    }
    t
}

/// A stage counter after a delta, clamped to the stage bounds.
pub open spec fn spec_clamp_stage(x: int) -> int {
    if x < -(STAGE_LIMIT as int) {
        -(STAGE_LIMIT as int)
    } else if x > STAGE_LIMIT as int {
        STAGE_LIMIT as int
    } else {
        x
    }
}

/// However far the deltas of any sequence of applied moves push a
/// counter, the clamp keeps it within the stage bounds.
pub proof fn lemma_stage_clamp_bounds(x: int)
    ensures
        stage_ok(spec_clamp_stage(x)),
{
}

/// Clamps a stage counter to `[-STAGE_LIMIT, STAGE_LIMIT]`.
pub fn clamp_stage(x: i64) -> (r: i32)
    ensures
        r == spec_clamp_stage(x as int),
{
    if x < -(STAGE_LIMIT as i64) {
        -STAGE_LIMIT
    } else if x > STAGE_LIMIT as i64 {
        STAGE_LIMIT
    } else {
        x as i32
    }
}

/// The species acting in a move: the active member of the player team
/// when `player_turn`, of the enemy team otherwise.
pub open spec fn spec_attacker(dex: MonsterDex, s: BattleModel, player_turn: bool) -> Monster {
    if player_turn {
        dex.monsters@[s.player_team[0].species as int]
    } else {
        dex.monsters@[s.enemy_team[0].species as int]
    }
}

/// The species being hit: the active member of the side not acting.
pub open spec fn spec_defender(dex: MonsterDex, s: BattleModel, player_turn: bool) -> Monster {
    if player_turn {
        dex.monsters@[s.enemy_team[0].species as int]
    } else {
        dex.monsters@[s.player_team[0].species as int]
    }
}

/// The move the acting side's active monster uses for `move_index`.
pub open spec fn spec_selected_move(
    dex: MonsterDex,
    s: BattleModel,
    move_index: int,
    player_turn: bool,
) -> Move {
    dex.moves@[spec_attacker(dex, s, player_turn).moves@[move_index] as int]
}

/// Damage in centipoints dealt by the selected move under the current
/// stat stages: the acting side's attack stage scales the attack stat,
/// the defending side's defense stage scales the defense stat.
pub open spec fn spec_move_damage(
    dex: MonsterDex,
    s: BattleModel,
    move_index: int,
    player_turn: bool,
) -> int {
    let attacker = spec_attacker(dex, s, player_turn);
    let defender = spec_defender(dex, s, player_turn);
    let mv = spec_selected_move(dex, s, move_index, player_turn);
    let att_stage = if player_turn {
        s.self_attack_stages
    } else {
        s.opp_attack_stages
    };
    let def_stage = if player_turn {
        s.opp_defense_stages
    } else {
        s.self_defense_stages
    };
    spec_damage(
        mv.damage as int,
        attacker.attack_stat * (8 + att_stage),
        defender.defense_stat * (8 + def_stage),
        spec_stab_bonus(mv.attack_type, attacker.monster_type) as int,
        spec_type_effectiveness(mv.attack_type, defender.monster_type) as int,
    )
}

/// The four stage counters after the move's deltas, each clamped. The
/// move's "self" deltas land on the acting side's counters and its
/// "opp" deltas on the other side's; the `self_*` counters always mean
/// the player's side, so the mapping flips with `player_turn`.
pub open spec fn spec_stages_after_move(s: BattleModel, mv: Move, player_turn: bool) -> BattleModel {
    if player_turn {
        BattleModel {
            self_attack_stages: spec_clamp_stage(s.self_attack_stages + mv.self_attack_stages),
            self_defense_stages: spec_clamp_stage(s.self_defense_stages + mv.self_defense_stages),
            opp_attack_stages: spec_clamp_stage(s.opp_attack_stages + mv.opp_attack_stages),
            opp_defense_stages: spec_clamp_stage(s.opp_defense_stages + mv.opp_defense_stages),
            ..s
        }
    } else {
        BattleModel {
            opp_attack_stages: spec_clamp_stage(s.opp_attack_stages + mv.self_attack_stages),
            opp_defense_stages: spec_clamp_stage(s.opp_defense_stages + mv.self_defense_stages),
            self_attack_stages: spec_clamp_stage(s.self_attack_stages + mv.opp_attack_stages),
            self_defense_stages: spec_clamp_stage(s.self_defense_stages + mv.opp_defense_stages),
            ..s
        }
    }
}

/// Health left after subtracting damage, clamped at zero; an upper
/// clamp at full health would never bind, because damage is never
/// negative and health never exceeds full.
pub open spec fn spec_apply_damage(h: int, d: int) -> int {
    if d >= h {
        0
    } else {
        h - d
    }
}

/// Subtracts damage from a health value, clamping at zero.
pub fn apply_damage(health: u32, damage: u64) -> (r: u32)
    ensures
        r == spec_apply_damage(health as int, damage as int),
{
    if damage >= health as u64 {
        0
    } else {
        health - (damage as u32)
    }
}

/// The defending roster after the selected move's damage lands on its
/// active member (before repartitioning).
pub open spec fn spec_hurt_team(
    dex: MonsterDex,
    s: BattleModel,
    move_index: int,
    player_turn: bool,
) -> Seq<TeamMember> {
    let dteam = if player_turn {
        s.enemy_team
    } else {
        s.player_team
    };
    let dmg = spec_move_damage(dex, s, move_index, player_turn);
    dteam.update(
        0,
        TeamMember {
            species: dteam[0].species,
            health: spec_apply_damage(dteam[0].health as int, dmg) as u32,
        },
    )
}

/// The battle state after one move: stages updated and clamped, damage
/// applied to the defending active member, the defending roster
/// repartitioned alive-first, and the turn flag flipped.
pub open spec fn spec_after_move(
    dex: MonsterDex,
    s: BattleModel,
    move_index: int,
    player_turn: bool,
) -> BattleModel {
    let mv = spec_selected_move(dex, s, move_index, player_turn);
    let s1 = spec_stages_after_move(s, mv, player_turn);
    let parted = spec_partition_alive(spec_hurt_team(dex, s, move_index, player_turn));
    if player_turn {
        BattleModel { enemy_team: parted, player_turn: !s.player_turn, ..s1 }
    } else {
        BattleModel { player_team: parted, player_turn: !s.player_turn, ..s1 }
    }
}

/// The acting side's roster after switching the active slot with roster
/// slot `target` and repartitioning alive-first.
pub open spec fn spec_switch_team(team: Seq<TeamMember>, target: int) -> Seq<TeamMember> {
    spec_partition_alive(team.update(0, team[target]).update(target, team[0]))
}

/// The battle state after the acting side switches its active member
/// with roster slot `target`: health and stages persist, only the
/// roster order and the turn flag change.
pub open spec fn spec_after_switch(s: BattleModel, target: int) -> BattleModel {
    if s.player_turn {
        BattleModel {
            player_team: spec_switch_team(s.player_team, target),
            player_turn: !s.player_turn,
            ..s
        }
    } else {
        BattleModel {
            enemy_team: spec_switch_team(s.enemy_team, target),
            player_turn: !s.player_turn,
            ..s
        }
    }
}

/// Every member restored to full health, order and species kept.
pub open spec fn spec_restore_full(team: Seq<TeamMember>) -> Seq<TeamMember> {
    team.map_values(|m: TeamMember| TeamMember { species: m.species, health: MAX_HEALTH })
}

/// Computes the damage of the selected move from the current stat
/// stages and applies the move's stage deltas, clamped, to the state.
/// Returns the damage in centipoints; teams and the turn flag are
/// untouched.
pub fn calculate_damage(
    dex: &MonsterDex,
    state: &mut BattleState,
    move_index: usize,
    player_turn: bool,
) -> (d: u64)
    requires
        dex.wf(),
        old(state)@.wf(*dex),
        move_index < 4,
    ensures
        d == spec_move_damage(*dex, old(state)@, move_index as int, player_turn),
        final(state)@ == spec_stages_after_move(
            old(state)@,
            spec_selected_move(*dex, old(state)@, move_index as int, player_turn),
            player_turn,
        ),
        final(state)@.wf(*dex),
{
    let att_species = if player_turn {
        state.player_team[0].species
    } else {
        state.enemy_team[0].species
    };
    let def_species = if player_turn {
        state.enemy_team[0].species
    } else {
        state.player_team[0].species
    };
    let attacker = &dex.monsters[att_species];
    let defender = &dex.monsters[def_species];
    let mv_idx = attacker.moves[move_index];
    let mv = &dex.moves[mv_idx];
    let att_stage = if player_turn {
        state.self_attack_stages
    } else {
        state.opp_attack_stages
    };
    let def_stage = if player_turn {
        state.opp_defense_stages
    } else {
        state.self_defense_stages
    };
    let a_stat: u64 = attacker.attack_stat as u64;
    let a_mult: u64 = (8 + att_stage) as u64;
    let d_stat: u64 = defender.defense_stat as u64;
    let d_mult: u64 = (8 + def_stage) as u64;
    proof {
        assert(a_stat * a_mult <= 14 * MAX_STAT) by (nonlinear_arith)
            requires
                a_stat <= MAX_STAT,
                a_mult <= 14,
        ;
        assert(2 <= d_stat * d_mult <= 14 * MAX_STAT) by (nonlinear_arith)
            requires
                1 <= d_stat <= MAX_STAT,
                2 <= d_mult <= 14,
        ;
    }
    let ea: u64 = a_stat * a_mult;
    let ed: u64 = d_stat * d_mult;
    let stab = stab_bonus(mv.attack_type, attacker.monster_type);
    let tb = type_effectiveness(mv.attack_type, defender.monster_type);
    let d = damage_calc(mv.damage, ea, ed, stab, tb);

    if player_turn {
        state.self_attack_stages = clamp_stage(
            state.self_attack_stages as i64 + mv.self_attack_stages as i64,
        );
        state.self_defense_stages = clamp_stage(
            state.self_defense_stages as i64 + mv.self_defense_stages as i64,
        );
        state.opp_attack_stages = clamp_stage(
            state.opp_attack_stages as i64 + mv.opp_attack_stages as i64,
        );
        state.opp_defense_stages = clamp_stage(
            state.opp_defense_stages as i64 + mv.opp_defense_stages as i64,
        );
    } else {
        state.opp_attack_stages = clamp_stage(
            state.opp_attack_stages as i64 + mv.self_attack_stages as i64,
        );
        state.opp_defense_stages = clamp_stage(
            state.opp_defense_stages as i64 + mv.self_defense_stages as i64,
        );
        state.self_attack_stages = clamp_stage(
            state.self_attack_stages as i64 + mv.opp_attack_stages as i64,
        );
        state.self_defense_stages = clamp_stage(
            state.self_defense_stages as i64 + mv.opp_defense_stages as i64,
        );
    }
    d
}

/// The partition keeps the roster's length.
pub proof fn lemma_partition_len(team: Seq<TeamMember>)
    ensures
        spec_partition_alive(team).len() == team.len(),
    decreases team.len(),
{
    broadcast use Seq::lemma_filter_len_push;

    if team.len() == 0 {
        reveal(Seq::filter);
    } else {
        lemma_partition_len(team.drop_last());
        assert(team.drop_last().push(team.last()) =~= team);
    }
}

/// Every member of the partition comes from the roster itself.
pub proof fn lemma_partition_members(team: Seq<TeamMember>)
    ensures
        forall|k: int|
            0 <= k < spec_partition_alive(team).len() ==> team.contains(
                #[trigger] spec_partition_alive(team)[k],
            ),
{
    broadcast use Seq::lemma_filter_contains_rev;

    let a = team.filter(alive_pred());
    let d = team.filter(dead_pred());
    let p = spec_partition_alive(team);
    assert forall|k: int| 0 <= k < p.len() implies team.contains(#[trigger] p[k]) by {
        if k < a.len() {
            assert(p[k] == a[k]);
            assert(a.contains(a[k]));
        } else {
            assert(p[k] == d[k - a.len()]);
            assert(d.contains(d[k - a.len()]));
        }
    }
}

/// The partition of a well-formed roster is well-formed.
pub proof fn lemma_partition_wf(team: Seq<TeamMember>, num_species: int)
    requires
        team_wf(team, num_species),
    ensures
        team_wf(spec_partition_alive(team), num_species),
{
    lemma_partition_len(team);
    lemma_partition_members(team);
    let p = spec_partition_alive(team);
    assert forall|k: int|
        0 <= k < p.len() implies (#[trigger] p[k]).species < num_species && p[k].health
        <= MAX_HEALTH by {
        let j = choose|j: int| 0 <= j < team.len() && team[j] == p[k];
    }
}

/// A roster has a positive alive count exactly when it has an alive
/// member.
pub proof fn lemma_alive_count_members(team: Seq<TeamMember>)
    ensures
        spec_alive_count(team) > 0 <==> exists|i: int|
            0 <= i < team.len() && member_alive(#[trigger] team[i]),
{
    broadcast use Seq::lemma_filter_pred;
    broadcast use Seq::lemma_filter_contains;
    broadcast use Seq::lemma_filter_contains_rev;

    let f = team.filter(alive_pred());
    if f.len() > 0 {
        assert(f.contains(f[0]));
        assert(team.contains(f[0]));
        assert(member_alive(f[0]));
    }
    if exists|i: int| 0 <= i < team.len() && member_alive(#[trigger] team[i]) {
        let i = choose|i: int| 0 <= i < team.len() && member_alive(#[trigger] team[i]);
        assert(alive_pred()(team[i]));
        assert(f.contains(team[i]));
    }
}

/// A roster and its partition have an alive member for one another.
pub proof fn lemma_partition_same_alive(team: Seq<TeamMember>)
    ensures
        (exists|i: int|
            0 <= i < spec_partition_alive(team).len() && member_alive(
                #[trigger] spec_partition_alive(team)[i],
            )) <==> (exists|i: int| 0 <= i < team.len() && member_alive(#[trigger] team[i])),
{
    broadcast use Seq::lemma_filter_contains;

    let p = spec_partition_alive(team);
    let a = team.filter(alive_pred());
    if exists|i: int| 0 <= i < p.len() && member_alive(#[trigger] p[i]) {
        let i = choose|i: int| 0 <= i < p.len() && member_alive(#[trigger] p[i]);
        lemma_partition_members(team);
        lemma_partition_len(team);
        assert(team.contains(p[i]));
        let j = choose|j: int| 0 <= j < team.len() && team[j] == p[i];
        assert(member_alive(team[j]));
    }
    if exists|i: int| 0 <= i < team.len() && member_alive(#[trigger] team[i]) {
        let i = choose|i: int| 0 <= i < team.len() && member_alive(#[trigger] team[i]);
        assert(alive_pred()(team[i]));
        assert(a.contains(team[i]));
        let k = choose|k: int| 0 <= k < a.len() && a[k] == team[i];
        assert(p[k] == a[k]);
        assert(member_alive(p[k]));
    }
}

/// A typed battle action: use one of the active monster's four moves,
/// or switch the active slot with another roster slot.
#[derive(Clone, Copy, PartialEq, Eq, Structural, Debug)]
pub enum BattleAction {
    UseMove(usize),
    Switch(usize),
}

/// Why an action was rejected; a rejected action mutates nothing.
#[derive(Clone, Copy, PartialEq, Eq, Structural, Debug)]
pub enum ActionError {
    /// A move index outside 0..=3.
    InvalidMoveIndex,
    /// A switch target outside 1..roster length.
    InvalidSwitchIndex,
    /// A switch target whose member has fainted.
    SwitchToFainted,
}

/// What one resolved turn reports back to the caller.
#[derive(Debug, PartialEq, Eq)]
pub struct TurnOutcome {
    /// Damage dealt in centipoints (0 for a switch or status move).
    pub damage: u64,
    /// The effectiveness message, when one is owed.
    pub effectiveness: Option<String>,
    /// Whether the defending active member fainted this turn.
    pub fainted: bool,
    /// Whether the defending team has no member left standing.
    pub team_defeated: bool,
}

/// Case analysis for a strike on the active slot of an alive-first
/// roster: if the active member survives, or the whole roster is down,
/// the partition changes nothing; an alive member besides a fainted
/// active one is found at slot 1.
proof fn lemma_strike_cases(old_team: Seq<TeamMember>, hurt: Seq<TeamMember>)
    requires
        old_team.len() >= 1,
        team_alive_first(old_team),
        hurt.len() == old_team.len(),
        forall|i: int| 1 <= i < hurt.len() ==> hurt[i] == old_team[i],
    ensures
        member_alive(hurt[0]) ==> spec_partition_alive(hurt) == hurt,
        !member_alive(hurt[0]) ==> ((hurt.len() > 1 && member_alive(hurt[1]))
            <==> spec_alive_count(hurt) > 0),
        !member_alive(hurt[0]) && spec_alive_count(hurt) == 0 ==> spec_partition_alive(hurt)
            == hurt,
{
    lemma_alive_count_members(hurt);
    if member_alive(hurt[0]) {
        assert(team_alive_first(hurt)) by {
            assert forall|i: int, j: int|
                0 <= i < j < hurt.len() && member_alive(#[trigger] hurt[j])
                    implies member_alive(#[trigger] hurt[i]) by {
                if i >= 1 {
                    assert(member_alive(old_team[j]));
                    assert(member_alive(old_team[i]));
                }
            }
        }
        lemma_partition_identity(hurt);
    } else {
        if hurt.len() > 1 && member_alive(hurt[1]) {
            assert(spec_alive_count(hurt) > 0);
        } else {
            assert forall|i: int| 0 <= i < hurt.len() implies !member_alive(
                #[trigger] hurt[i],
            ) by {
                if i >= 1 && member_alive(hurt[i]) {
                    assert(member_alive(old_team[i]));
                    assert(member_alive(old_team[1]));
                }
            }
        }
        if spec_alive_count(hurt) == 0 {
            assert(forall|i: int| 0 <= i < hurt.len() ==> !member_alive(#[trigger] hurt[i]));
            assert(team_alive_first(hurt));
            lemma_partition_identity(hurt);
        }
    }
}

/// Applies damage to a roster's active member and repartitions it
/// alive-first. Returns whether the active member fainted and, if so,
/// whether another member still stands.
pub(crate) fn strike_active(team: &mut Vec<TeamMember>, damage: u64) -> (res: (bool, bool))
    requires
        old(team)@.len() >= 1,
        team_alive_first(old(team)@),
    ensures
        ({
            let hurt = old(team)@.update(
                0,
                TeamMember {
                    species: old(team)@[0].species,
                    health: spec_apply_damage(old(team)@[0].health as int, damage as int) as u32,
                },
            );
            &&& res.0 == !member_alive(hurt[0])
            &&& res.0 ==> res.1 == (spec_alive_count(hurt) > 0)
            &&& final(team)@ == spec_partition_alive(hurt)
        }),
{
    let m0 = team[0];
    let nh = apply_damage(m0.health, damage);
    team[0] = TeamMember { species: m0.species, health: nh };
    let ghost hurt = team@;
    proof {
        lemma_strike_cases(old(team)@, hurt);
    }
    let fainted = nh == 0;
    let backup = team.len() > 1 && team[1].health > 0;
    if fainted && backup {
        let parted = verify_team(team);
        *team = parted;
        (true, true)
    } else {
        (fainted, false)
    }
}

/// Every member set back to full health, order and species kept; the
/// encounter-reset rule applied to the player's team on a loss.
fn restore_team_full(team: &mut Vec<TeamMember>)
    ensures
        final(team)@ == spec_restore_full(old(team)@),
{
    let mut i: usize = 0;
    while i < team.len()
        invariant
            i <= team@.len(),
            team@.len() == old(team)@.len(),
            forall|j: int|
                0 <= j < i ==> team@[j] == (TeamMember {
                    species: old(team)@[j].species,
                    health: MAX_HEALTH,
                }),
            forall|j: int| i <= j < team@.len() ==> team@[j] == old(team)@[j],
        decreases team@.len() - i,
    {
        let sp = team[i].species;
        team[i] = TeamMember { species: sp, health: MAX_HEALTH };
        i = i + 1;
    }
    proof {
        assert(team@ =~= spec_restore_full(old(team)@));
    }
}

/// The battle state after a resolved move: the post-move state of
/// [`spec_after_move`], except that a faint hands the turn back to the
/// acting side (the forced switch-in consumes the defender's turn), and
/// a wipe of the player's team restores it to full health
/// (restore-on-loss).
pub open spec fn spec_resolve_move(dex: MonsterDex, s: BattleModel, move_index: int) -> BattleModel {
    let pt = s.player_turn;
    let base = spec_after_move(dex, s, move_index, pt);
    let hurt = spec_hurt_team(dex, s, move_index, pt);
    let fainted = !member_alive(hurt[0]);
    let defeated = fainted && spec_alive_count(hurt) == 0;
    let turn = if fainted {
        pt
    } else {
        !pt
    };
    if defeated && !pt {
        BattleModel {
            player_team: spec_restore_full(base.player_team),
            player_turn: turn,
            ..base
        }
    } else {
        BattleModel { player_turn: turn, ..base }
    }
}

/// Applies move `i` of the acting side's active monster: damage from
/// the current stages, stage deltas, faint and wipe handling, and the
/// restore-on-loss rule.
#[verifier::spinoff_prover]
fn resolve_move_action(dex: &MonsterDex, state: &mut BattleState, i: usize) -> (out: TurnOutcome)
    requires
        dex.wf(),
        old(state)@.wf(*dex),
        old(state)@.teams_alive_first(),
        i < 4,
    ensures
        final(state)@.wf(*dex),
        final(state)@.teams_alive_first(),
        ({
            let s = old(state)@;
            let pt = s.player_turn;
            let mv = spec_selected_move(*dex, s, i as int, pt);
            let hurt = spec_hurt_team(*dex, s, i as int, pt);
            let msg = spec_effect_message(
                mv.damage,
                spec_type_effectiveness(mv.attack_type, spec_defender(*dex, s, pt).monster_type),
            );
            &&& out.damage == spec_move_damage(*dex, s, i as int, pt)
            &&& out.fainted == !member_alive(hurt[0])
            &&& out.team_defeated == (!member_alive(hurt[0]) && spec_alive_count(hurt) == 0)
            &&& out.effectiveness.is_some() == msg.is_some()
            &&& (out.effectiveness matches Some(m) ==> m@ == msg.unwrap())
            &&& final(state)@ == spec_resolve_move(*dex, s, i as int)
        }),
{
    let pt = state.player_turn;
    let d = calculate_damage(dex, state, i, pt);
    let att_species = if pt {
        state.player_team[0].species
    } else {
        state.enemy_team[0].species
    };
    let def_species = if pt {
        state.enemy_team[0].species
    } else {
        state.player_team[0].species
    };
    let mv_idx = dex.monsters[att_species].moves[i];
    let eff_msg = str_effectiveness(&dex.moves[mv_idx], dex.monsters[def_species].monster_type);
    let (fainted, _has_backup) = if pt {
        strike_active(&mut state.enemy_team, d)
    } else {
        strike_active(&mut state.player_team, d)
    };
    let ghost hurt = spec_hurt_team(*dex, old(state)@, i as int, pt);
    proof {
        lemma_alive_count_members(hurt);
        lemma_partition_same_alive(hurt);
        lemma_partition_alive_first(hurt);
        lemma_partition_len(hurt);
        assert(team_wf(hurt, dex.monsters@.len() as int));
        lemma_partition_wf(hurt, dex.monsters@.len() as int);
    }
    let defeated;
    if fainted {
        let still_standing = if pt {
            next_available_mon(&state.enemy_team)
        } else {
            next_available_mon(&state.player_team)
        };
        defeated = still_standing.is_none();
        proof {
            lemma_alive_count_members(spec_partition_alive(hurt));
        }
        if defeated && !pt {
            restore_team_full(&mut state.player_team);
        }
    } else {
        defeated = false;
        state.player_turn = !pt;
    }
    proof {
        let target = spec_resolve_move(*dex, old(state)@, i as int);
        assert(state@.player_team =~= target.player_team);
        assert(state@.enemy_team =~= target.enemy_team);
        assert(state@ =~= target);
    }
    TurnOutcome { damage: d, effectiveness: eff_msg, fainted, team_defeated: defeated }
}

/// Switches the acting side's active slot with roster slot `t`, which
/// must hold an alive member, and repartitions the roster.
#[verifier::spinoff_prover]
fn resolve_switch_action(dex: &MonsterDex, state: &mut BattleState, t: usize) -> (out: TurnOutcome)
    requires
        dex.wf(),
        old(state)@.wf(*dex),
        old(state)@.teams_alive_first(),
        ({
            let team = if old(state)@.player_turn {
                old(state)@.player_team
            } else {
                old(state)@.enemy_team
            };
            1 <= t < team.len() && member_alive(team[t as int])
        }),
    ensures
        final(state)@.wf(*dex),
        final(state)@.teams_alive_first(),
        final(state)@ == spec_after_switch(old(state)@, t as int),
        out.damage == 0 && out.effectiveness is None && !out.fainted && !out.team_defeated,
{
    if state.player_turn {
        let a = state.player_team[0];
        let b = state.player_team[t];
        state.player_team[0] = b;
        state.player_team[t] = a;
        let parted = verify_team(&state.player_team);
        state.player_team = parted;
    } else {
        let a = state.enemy_team[0];
        let b = state.enemy_team[t];
        state.enemy_team[0] = b;
        state.enemy_team[t] = a;
        let parted = verify_team(&state.enemy_team);
        state.enemy_team = parted;
    }
    state.player_turn = !state.player_turn;
    proof {
        let s = old(state)@;
        let team = if s.player_turn {
            s.player_team
        } else {
            s.enemy_team
        };
        let swapped = team.update(0, team[t as int]).update(t as int, team[0]);
        assert(team_wf(swapped, dex.monsters@.len() as int));
        lemma_partition_wf(swapped, dex.monsters@.len() as int);
        lemma_partition_alive_first(swapped);
        lemma_partition_len(swapped);
        let target = spec_after_switch(s, t as int);
        assert(state@.player_team =~= target.player_team);
        assert(state@.enemy_team =~= target.enemy_team);
        assert(state@ =~= target);
    }
    TurnOutcome { damage: 0, effectiveness: None, fainted: false, team_defeated: false }
}

/// Resolves one battle turn for the side named by the state's turn
/// flag. A move computes damage from the current stages, applies the
/// move's stage deltas, subtracts the damage from the defending active
/// member and repartitions that roster on a faint; a faint that leaves
/// the defender a standing member forces the switch-in and hands the
/// turn back to the acting side; a wipe ends the battle, restoring the
/// player's team to full health when it is the side wiped out. A switch
/// swaps the active slot with an alive roster slot. Invalid actions are
/// rejected before any mutation.
#[verifier::spinoff_prover]
pub fn resolve_turn(dex: &MonsterDex, state: &mut BattleState, action: BattleAction) -> (r: Result<
    TurnOutcome,
    ActionError,
>)
    requires
        dex.wf(),
        old(state)@.wf(*dex),
        old(state)@.teams_alive_first(),
    ensures
        final(state)@.wf(*dex),
        final(state)@.teams_alive_first(),
        r is Err ==> final(state)@ == old(state)@,
        match action {
            BattleAction::UseMove(i) => if i >= 4 {
                r == Err::<TurnOutcome, ActionError>(ActionError::InvalidMoveIndex)
            } else {
                let s = old(state)@;
                let pt = s.player_turn;
                let mv = spec_selected_move(*dex, s, i as int, pt);
                let hurt = spec_hurt_team(*dex, s, i as int, pt);
                let msg = spec_effect_message(
                    mv.damage,
                    spec_type_effectiveness(
                        mv.attack_type,
                        spec_defender(*dex, s, pt).monster_type,
                    ),
                );
                &&& r matches Ok(out)
                &&& out.damage == spec_move_damage(*dex, s, i as int, pt)
                &&& out.fainted == !member_alive(hurt[0])
                &&& out.team_defeated == (!member_alive(hurt[0]) && spec_alive_count(hurt) == 0)
                &&& out.effectiveness.is_some() == msg.is_some()
                &&& (out.effectiveness matches Some(m) ==> m@ == msg.unwrap())
                &&& final(state)@ == spec_resolve_move(*dex, s, i as int)
            },
            BattleAction::Switch(t) => {
                let s = old(state)@;
                let team = if s.player_turn {
                    s.player_team
                } else {
                    s.enemy_team
                };
                if t == 0 || t >= team.len() {
                    r == Err::<TurnOutcome, ActionError>(ActionError::InvalidSwitchIndex)
                } else if !member_alive(team[t as int]) {
                    r == Err::<TurnOutcome, ActionError>(ActionError::SwitchToFainted)
                } else {
                    &&& r matches Ok(out)
                    &&& out.damage == 0
                    &&& out.effectiveness is None
                    &&& !out.fainted
                    &&& !out.team_defeated
                    &&& final(state)@ == spec_after_switch(s, t as int)
                }
            },
        },
{
    match action {
        BattleAction::UseMove(i) => {
            if i >= 4 {
                return Err(ActionError::InvalidMoveIndex);
            }
            Ok(resolve_move_action(dex, state, i))
        },
        BattleAction::Switch(t) => {
            let len = if state.player_turn {
                state.player_team.len()
            } else {
                state.enemy_team.len()
            };
            if t == 0 || t >= len {
                return Err(ActionError::InvalidSwitchIndex);
            }
            let target_health = if state.player_turn {
                state.player_team[t].health
            } else {
                state.enemy_team[t].health
            };
            if target_health == 0 {
                return Err(ActionError::SwitchToFainted);
            }
            Ok(resolve_switch_action(dex, state, t))
        },
    }
}

/// Swaps two roster slots, the manual team-menu reordering. Rejected
/// without mutation when either index is out of the roster's bounds;
/// the caller repartitions the roster alive-first when the menu closes.
pub fn swap_team_slots(team: &mut Vec<TeamMember>, i: usize, j: usize) -> (r: Result<
    (),
    ActionError,
>)
    ensures
        match r {
            Ok(()) => i < old(team)@.len() && j < old(team)@.len() && final(team)@ == old(
                team,
            )@.update(i as int, old(team)@[j as int]).update(j as int, old(team)@[i as int]),
            Err(e) => e == ActionError::InvalidSwitchIndex && (i >= old(team)@.len() || j >= old(
                team,
            )@.len()) && final(team)@ == old(team)@,
        },
{
    if i >= team.len() || j >= team.len() {
        return Err(ActionError::InvalidSwitchIndex);
    }
    let a = team[i];
    let b = team[j];
    team[i] = b;
    team[j] = a;
    Ok(())
}

/// The damage of any selected move in a well-formed state is never
/// negative.
pub proof fn lemma_move_damage_nonneg(dex: MonsterDex, s: BattleModel, move_index: int, pt: bool)
    requires
        dex.wf(),
        s.wf(dex),
    ensures
        0 <= spec_move_damage(dex, s, move_index, pt),
{
    let attacker = spec_attacker(dex, s, pt);
    let defender = spec_defender(dex, s, pt);
    let att_stage = if pt {
        s.self_attack_stages
    } else {
        s.opp_attack_stages
    };
    let def_stage = if pt {
        s.opp_defense_stages
    } else {
        s.self_defense_stages
    };
    let ea = attacker.attack_stat * (8 + att_stage);
    let ed = defender.defense_stat * (8 + def_stage);
    assert(0 <= ea) by (nonlinear_arith)
        requires
            0 <= attacker.attack_stat,
            0 <= 8 + att_stage,
            ea == attacker.attack_stat * (8 + att_stage),
    ;
    assert(1 <= ed) by (nonlinear_arith)
        requires
            1 <= defender.defense_stat,
            2 <= 8 + def_stage,
            ed == defender.defense_stat * (8 + def_stage),
    ;
    crate::monster::lemma_damage_nonneg(
        spec_selected_move(dex, s, move_index, pt).damage as int,
        ea,
        ed,
        spec_stab_bonus(
            spec_selected_move(dex, s, move_index, pt).attack_type,
            attacker.monster_type,
        ) as int,
        spec_type_effectiveness(
            spec_selected_move(dex, s, move_index, pt).attack_type,
            defender.monster_type,
        ) as int,
    );
}

/// A status move never touches health: with base power 0 the damage
/// formula yields 0, so the struck roster is unchanged member for
/// member (and, the roster being alive-first, so is its repartition:
/// [`lemma_partition_identity`]). The attacking roster is never
/// touched by a move at all.
#[verifier::spinoff_prover]
pub proof fn lemma_status_move_keeps_health(dex: MonsterDex, s: BattleModel, i: int, pt: bool)
    requires
        dex.wf(),
        s.wf(dex),
        s.teams_alive_first(),
        0 <= i < 4,
        spec_selected_move(dex, s, i, pt).damage == 0,
    ensures
        spec_move_damage(dex, s, i, pt) == 0,
        spec_hurt_team(dex, s, i, pt) == (if pt {
            s.enemy_team
        } else {
            s.player_team
        }),
{
    assert(spec_move_damage(dex, s, i, pt) == 0) by {
        let defender = spec_defender(dex, s, pt);
        let def_stage = if pt {
            s.opp_defense_stages
        } else {
            s.self_defense_stages
        };
        let ed = defender.defense_stat * (8 + def_stage);
        assert(1 <= ed) by (nonlinear_arith)
            requires
                1 <= defender.defense_stat,
                2 <= 8 + def_stage,
                ed == defender.defense_stat * (8 + def_stage),
        ;
        lemma_div_basics_1(ed * 4);
    }
    let dteam = if pt {
        s.enemy_team
    } else {
        s.player_team
    };
    let hurt = spec_hurt_team(dex, s, i, pt);
    assert(hurt == dteam) by {
        assert(spec_apply_damage(dteam[0].health as int, 0) == dteam[0].health);
        assert(TeamMember {
            species: dteam[0].species,
            health: spec_apply_damage(
                dteam[0].health as int,
                spec_move_damage(dex, s, i, pt),
            ) as u32,
        } == dteam[0]);
        lemma_update_with_same(dteam, 0);
    }
    assert(spec_partition_alive(hurt) == dteam) by {
        lemma_partition_identity(dteam);
    }
}

/// Updating a slot with the value it already holds changes nothing.
proof fn lemma_update_with_same(s: Seq<TeamMember>, i: int)
    requires
        0 <= i < s.len(),
    ensures
        s.update(i, s[i]) == s,
{
    assert(s.update(i, s[i]) =~= s);
}

/// Whether a roster keeps the alive-first invariant: no fainted member
/// ahead of an alive one.
pub fn check_alive_first(team: &Vec<TeamMember>) -> (b: bool)
    ensures
        b == team_alive_first(team@),
{
    let mut dead_seen = false;
    let mut i: usize = 0;
    while i < team.len()
        invariant
            i <= team@.len(),
            dead_seen == exists|j: int| 0 <= j < i && !member_alive(#[trigger] team@[j]),
            forall|j1: int, j2: int|
                0 <= j1 < j2 < i && member_alive(#[trigger] team@[j2]) ==> member_alive(
                    #[trigger] team@[j1],
                ),
        decreases team@.len() - i,
    {
        if team[i].health > 0 {
            if dead_seen {
                proof {
                    let j = choose|j: int| 0 <= j < i && !member_alive(#[trigger] team@[j]);
                    assert(!member_alive(team@[j]) && member_alive(team@[i as int]));
                }
                return false;
            }
        } else {
            dead_seen = true;
        }
        i = i + 1;
    }
    true
}

/// Load-time check of a whole battle state against a dex: roster sizes
/// and species bounds, health and stage bounds, and the alive-first
/// invariant on both rosters. Returns exactly whether the state is one
/// the battle engine and the search accept.
pub fn validate_state(dex: &MonsterDex, state: &BattleState) -> (b: bool)
    ensures
        b == (state@.wf(*dex) && state@.teams_alive_first()),
{
    if state.player_team.len() < 1 || state.player_team.len() > 6 {
        return false;
    }
    if state.enemy_team.len() < 1 || state.enemy_team.len() > 6 {
        return false;
    }
    let mut i: usize = 0;
    while i < state.player_team.len()
        invariant
            i <= state.player_team@.len(),
            forall|k: int|
                0 <= k < i ==> (#[trigger] state.player_team@[k]).species < dex.monsters@.len()
                    && state.player_team@[k].health <= MAX_HEALTH,
        decreases state.player_team@.len() - i,
    {
        let m = state.player_team[i];
        if m.species >= dex.monsters.len() || m.health > MAX_HEALTH {
            return false;
        }
        i = i + 1;
    }
    let mut j: usize = 0;
    while j < state.enemy_team.len()
        invariant
            j <= state.enemy_team@.len(),
            forall|k: int|
                0 <= k < j ==> (#[trigger] state.enemy_team@[k]).species < dex.monsters@.len()
                    && state.enemy_team@[k].health <= MAX_HEALTH,
        decreases state.enemy_team@.len() - j,
    {
        let m = state.enemy_team[j];
        if m.species >= dex.monsters.len() || m.health > MAX_HEALTH {
            return false;
        }
        j = j + 1;
    }
    if state.self_attack_stages < -STAGE_LIMIT || state.self_attack_stages > STAGE_LIMIT {
        return false;
    }
    if state.self_defense_stages < -STAGE_LIMIT || state.self_defense_stages > STAGE_LIMIT {
        return false;
    }
    if state.opp_attack_stages < -STAGE_LIMIT || state.opp_attack_stages > STAGE_LIMIT {
        return false;
    }
    if state.opp_defense_stages < -STAGE_LIMIT || state.opp_defense_stages > STAGE_LIMIT {
        return false;
    }
    if !check_alive_first(&state.player_team) {
        return false;
    }
    if !check_alive_first(&state.enemy_team) {
        return false;
    }
    true
}

} // verus!
