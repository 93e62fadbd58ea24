//! Adversarial move selection: depth-limited minimax over battle
//! states, implemented with alpha-beta pruning.
//!
//! The maximizing side is the enemy AI, the minimizing side the player.
//! [`spec_minimax`] is the plain, unpruned search; [`alphabeta`] is
//! proved to return exactly its value when called on a full window, so
//! pruning changes the number of explored nodes but never the result.

use vstd::prelude::*;
use crate::monster::{MonsterDex, MAX_HEALTH};
use crate::battle::{
    spec_move_damage,
    BattleState, BattleModel, TeamMember, alive_pred, spec_total_health,
    spec_alive_count, spec_partition_alive, spec_hurt_team, spec_after_move, spec_switch_team,
    team_wf, team_alive_first, calculate_damage, strike_active, total_team_health, verify_team,
    lemma_partition_alive_first, lemma_partition_len, lemma_partition_wf, lemma_move_damage_nonneg,
};

verus! {

/// Payoff that stands in for negative infinity: below every reachable
/// evaluation, which is bounded by the teams' total health.
pub const NEG_INFINITY: i64 = -1000000;

/// Payoff that stands in for positive infinity.
pub const POS_INFINITY: i64 = 1000000;

/// Every evaluation lies within this bound: six members of at most
/// `MAX_HEALTH` centipoints on each side.
pub const EVAL_BOUND: i64 = 60000;

/// The leaf payoff: the maximizing (enemy) side's total health minus
/// the minimizing (player) side's.
pub open spec fn spec_eval(s: BattleModel) -> int {
    spec_total_health(s.enemy_team) - spec_total_health(s.player_team)
}

/// The search's terminal test: both sides simultaneously at zero total
/// health, mirroring the evaluation function's design.
pub open spec fn spec_battle_over(s: BattleModel) -> bool {
    spec_total_health(s.player_team) == 0 && spec_total_health(s.enemy_team) == 0
}

/// How many members a side can switch in: its alive members besides
/// the active one.
pub open spec fn spec_num_switchable(team: Seq<TeamMember>) -> int {
    if spec_alive_count(team) == 0 {
        0
    } else {
        spec_alive_count(team) - 1
    }
}

/// Actions available to the side to move: its active monster's four
/// moves, then one switch per alive teammate.
pub open spec fn spec_num_actions(s: BattleModel, maximizing: bool) -> int {
    4 + spec_num_switchable(
        if maximizing {
            s.enemy_team
        } else {
            s.player_team
        },
    )
}

/// The state after the side to move takes `action`: actions 0 to 3 use
/// that move against the other side, actions 4 and up switch the active
/// slot with roster slot `action - 3`. Every branch works on its own
/// copy of the state; the turn flag flips either way.
pub open spec fn spec_apply_search_action(
    dex: MonsterDex,
    s: BattleModel,
    action: int,
    maximizing: bool,
) -> BattleModel {
    if action < 4 {
        spec_after_move(dex, s, action, !maximizing)
    } else {
        if maximizing {
            BattleModel {
                enemy_team: spec_switch_team(s.enemy_team, action - 3),
                player_turn: !s.player_turn,
                ..s
            }
        } else {
            BattleModel {
                player_team: spec_switch_team(s.player_team, action - 3),
                player_turn: !s.player_turn,
                ..s
            }
        }
    }
}

/// Plain, unpruned minimax: the evaluation at depth 0 or a terminal
/// state, else the best child value over every available action.
pub open spec fn spec_minimax(
    dex: MonsterDex,
    s: BattleModel,
    depth: nat,
    maximizing: bool,
) -> int
    decreases depth, spec_num_actions(s, maximizing) + 1,
{
    if depth == 0 || spec_battle_over(s) {
        spec_eval(s)
    } else {
        spec_best_prefix(dex, s, depth, maximizing, spec_num_actions(s, maximizing))
    }
}

/// The best minimax child value over the first `j` actions: a running
/// maximum for the maximizing side, a running minimum for the
/// minimizing side, starting from the side's worst sentinel.
pub open spec fn spec_best_prefix(
    dex: MonsterDex,
    s: BattleModel,
    depth: nat,
    maximizing: bool,
    j: int,
) -> int
    decreases depth, j,
{
    if j <= 0 || depth == 0 {
        if maximizing {
            NEG_INFINITY as int
        } else {
            POS_INFINITY as int
        }
    } else {
        let c = spec_minimax(
            dex,
            spec_apply_search_action(dex, s, j - 1, maximizing),
            (depth - 1) as nat,
            !maximizing,
        );
        let b = spec_best_prefix(dex, s, depth, maximizing, j - 1);
        if maximizing {
            if c > b {
                c
            } else {
                b
            }
        } else {
            if c < b {
                c
            } else {
                b
            }
        }
    }
}

/// The minimax value of the child reached by `action`, searched at
/// `child_depth` for the other side.
pub open spec fn spec_child_value(
    dex: MonsterDex,
    s: BattleModel,
    child_depth: nat,
    maximizing: bool,
    action: int,
) -> int {
    spec_minimax(
        dex,
        spec_apply_search_action(dex, s, action, maximizing),
        child_depth,
        !maximizing,
    )
}

/// A roster's total health is bounded by a full bar per member.
pub proof fn lemma_total_health_bounds(team: Seq<TeamMember>)
    requires
        forall|i: int| 0 <= i < team.len() ==> (#[trigger] team[i]).health <= MAX_HEALTH,
    ensures
        0 <= spec_total_health(team) <= team.len() * MAX_HEALTH,
    decreases team.len(),
{
    if team.len() > 0 {
        lemma_total_health_bounds(team.drop_last());
    }
}

/// Every evaluation of a well-formed state lies within `EVAL_BOUND`.
pub proof fn lemma_eval_bounds(dex: MonsterDex, s: BattleModel)
    requires
        s.wf(dex),
    ensures
        -EVAL_BOUND <= spec_eval(s) <= EVAL_BOUND,
{
    lemma_total_health_bounds(s.player_team);
    lemma_total_health_bounds(s.enemy_team);
}

/// Taking any available action preserves well-formedness and the
/// alive-first invariant of both rosters.
pub proof fn lemma_apply_search_action_preserves(
    dex: MonsterDex,
    s: BattleModel,
    action: int,
    maximizing: bool,
)
    requires
        dex.wf(),
        s.wf(dex),
        s.teams_alive_first(),
        0 <= action < spec_num_actions(s, maximizing),
    ensures
        spec_apply_search_action(dex, s, action, maximizing).wf(dex),
        spec_apply_search_action(dex, s, action, maximizing).teams_alive_first(),
{
    broadcast use Seq::lemma_filter_len;

    let n = dex.monsters@.len() as int;
    if action < 4 {
        let hurt = spec_hurt_team(dex, s, action, !maximizing);
        lemma_move_damage_nonneg(dex, s, action, !maximizing);
        assert(team_wf(hurt, n));
        lemma_partition_wf(hurt, n);
        lemma_partition_alive_first(hurt);
        lemma_partition_len(hurt);
    } else {
        let team = if maximizing {
            s.enemy_team
        } else {
            s.player_team
        };
        let t = action - 3;
        assert(spec_alive_count(team) <= team.len());
        assert(1 <= t < team.len());
        let swapped = team.update(0, team[t]).update(t, team[0]);
        assert(team_wf(swapped, n));
        lemma_partition_wf(swapped, n);
        lemma_partition_alive_first(swapped);
        lemma_partition_len(swapped);
    }
}

/// Every minimax value of a well-formed state lies within
/// `EVAL_BOUND`: leaves evaluate within it, and inner nodes take a
/// child's value.
pub proof fn lemma_minimax_bounds(dex: MonsterDex, s: BattleModel, depth: nat, maximizing: bool)
    requires
        dex.wf(),
        s.wf(dex),
        s.teams_alive_first(),
    ensures
        -EVAL_BOUND <= spec_minimax(dex, s, depth, maximizing) <= EVAL_BOUND,
    decreases depth, spec_num_actions(s, maximizing) + 1,
{
    if depth == 0 || spec_battle_over(s) {
        lemma_eval_bounds(dex, s);
    } else {
        lemma_best_prefix_bounds(dex, s, depth, maximizing, spec_num_actions(s, maximizing));
    }
}

/// The best child value over a non-empty action prefix lies within
/// `EVAL_BOUND`.
pub proof fn lemma_best_prefix_bounds(
    dex: MonsterDex,
    s: BattleModel,
    depth: nat,
    maximizing: bool,
    j: int,
)
    requires
        dex.wf(),
        s.wf(dex),
        s.teams_alive_first(),
        depth >= 1,
        1 <= j <= spec_num_actions(s, maximizing),
    ensures
        -EVAL_BOUND <= spec_best_prefix(dex, s, depth, maximizing, j) <= EVAL_BOUND,
    decreases depth, j,
{
    lemma_apply_search_action_preserves(dex, s, j - 1, maximizing);
    lemma_minimax_bounds(
        dex,
        spec_apply_search_action(dex, s, j - 1, maximizing),
        (depth - 1) as nat,
        !maximizing,
    );
    if j >= 2 {
        lemma_best_prefix_bounds(dex, s, depth, maximizing, j - 1);
    }
}

/// The running best over a prefix of actions bounds every child value
/// in the prefix, and is attained by one of them.
pub proof fn lemma_best_prefix_props(
    dex: MonsterDex,
    s: BattleModel,
    depth: nat,
    maximizing: bool,
    j: int,
)
    requires
        dex.wf(),
        s.wf(dex),
        s.teams_alive_first(),
        depth >= 1,
        1 <= j <= spec_num_actions(s, maximizing),
    ensures
        maximizing ==> forall|l: int|
            0 <= l < j ==> #[trigger] spec_child_value(dex, s, (depth - 1) as nat, maximizing, l)
                <= spec_best_prefix(dex, s, depth, maximizing, j),
        !maximizing ==> forall|l: int|
            0 <= l < j ==> #[trigger] spec_child_value(dex, s, (depth - 1) as nat, maximizing, l)
                >= spec_best_prefix(dex, s, depth, maximizing, j),
        exists|l: int|
            0 <= l < j && #[trigger] spec_child_value(dex, s, (depth - 1) as nat, maximizing, l)
                == spec_best_prefix(dex, s, depth, maximizing, j),
    decreases j,
{
    let c = spec_child_value(dex, s, (depth - 1) as nat, maximizing, j - 1);
    if j == 1 {
        assert(spec_best_prefix(dex, s, depth, maximizing, 0) == if maximizing {
            NEG_INFINITY as int
        } else {
            POS_INFINITY as int
        });
        lemma_apply_search_action_preserves(dex, s, 0, maximizing);
        lemma_minimax_bounds(
            dex,
            spec_apply_search_action(dex, s, 0, maximizing),
            (depth - 1) as nat,
            !maximizing,
        );
        assert(spec_child_value(dex, s, (depth - 1) as nat, maximizing, 0) == spec_best_prefix(
            dex,
            s,
            depth,
            maximizing,
            1,
        ));
    } else {
        lemma_best_prefix_props(dex, s, depth, maximizing, j - 1);
        let b = spec_best_prefix(dex, s, depth, maximizing, j - 1);
        if maximizing {
            if c > b {
                assert(spec_best_prefix(dex, s, depth, maximizing, j) == c);
            } else {
                let w = choose|l: int|
                    0 <= l < j - 1 && #[trigger] spec_child_value(
                        dex,
                        s,
                        (depth - 1) as nat,
                        maximizing,
                        l,
                    ) == b;
                assert(spec_best_prefix(dex, s, depth, maximizing, j) == b);
            }
        } else {
            if c < b {
                assert(spec_best_prefix(dex, s, depth, maximizing, j) == c);
            } else {
                let w = choose|l: int|
                    0 <= l < j - 1 && #[trigger] spec_child_value(
                        dex,
                        s,
                        (depth - 1) as nat,
                        maximizing,
                        l,
                    ) == b;
                assert(spec_best_prefix(dex, s, depth, maximizing, j) == b);
            }
        }
    }
}

/// An element-wise copy of a roster; search branches never share
/// mutable state.
fn copy_team(v: &Vec<TeamMember>) -> (r: Vec<TeamMember>)
    ensures
        r@ == v@,
{
    let mut r: Vec<TeamMember> = Vec::new();
    let mut i: usize = 0;
    while i < v.len()
        invariant
            i <= v.len(),
            r@ == v@.take(i as int),
        decreases v.len() - i,
    {
        r.push(v[i]);
        proof {
            assert(v@.take(i + 1 as int) =~= v@.take(i as int).push(v@[i as int]));
        }
        i = i + 1;
    }
    proof {
        assert(v@.take(v@.len() as int) =~= v@);
    }
    r
}

/// Counts the members that could be switched into battle: the alive
/// members less the active slot.
pub fn num_switchable_mons(team: &Vec<TeamMember>) -> (r: usize)
    ensures
        r == spec_num_switchable(team@),
        r <= team@.len(),
{
    broadcast use Seq::lemma_filter_len;

    let mut count: usize = 0;
    let mut i: usize = 0;
    proof {
        reveal(Seq::filter);
        assert(team@.take(0int) =~= Seq::<TeamMember>::empty());
    }
    while i < team.len()
        invariant
            i <= team.len(),
            count == team@.take(i as int).filter(alive_pred()).len(),
            count <= i,
        decreases team.len() - i,
    {
        proof {
            assert(team@.take(i + 1 as int) =~= team@.take(i as int).push(team@[i as int]));
            Seq::lemma_filter_push(team@.take(i as int), team@[i as int], alive_pred());
        }
        if team[i].health > 0 {
            count = count + 1;
        }
        i = i + 1;
    }
    proof {
        assert(team@.take(team@.len() as int) =~= team@);
    }
    if count == 0 {
        0
    } else {
        count - 1
    }
}

/// The numeric payoff of a state: the maximizing team's total health
/// minus the minimizing team's.
pub fn evaluation_function(min_team: &Vec<TeamMember>, max_team: &Vec<TeamMember>) -> (r: i64)
    requires
        min_team@.len() <= 6,
        max_team@.len() <= 6,
    ensures
        r == spec_total_health(max_team@) - spec_total_health(min_team@),
{
    let maxh = total_team_health(max_team);
    let minh = total_team_health(min_team);
    (maxh as i64) - (minh as i64)
}

/// Builds the successor state for one search action on a fresh copy of
/// the state: a move strikes the other side, a switch rotates the
/// acting side's roster; the turn flag flips either way.
fn apply_search_action(
    dex: &MonsterDex,
    state: &BattleState,
    action: usize,
    maximizing: bool,
) -> (r: BattleState)
    requires
        dex.wf(),
        state@.wf(*dex),
        state@.teams_alive_first(),
        action < spec_num_actions(state@, maximizing),
    ensures
        r@ == spec_apply_search_action(*dex, state@, action as int, maximizing),
        r@.wf(*dex),
        r@.teams_alive_first(),
{
    proof {
        lemma_apply_search_action_preserves(*dex, state@, action as int, maximizing);
    }
    let mut new_state = BattleState {
        player_turn: !state.player_turn,
        player_team: copy_team(&state.player_team),
        enemy_team: copy_team(&state.enemy_team),
        self_attack_stages: state.self_attack_stages,
        self_defense_stages: state.self_defense_stages,
        opp_attack_stages: state.opp_attack_stages,
        opp_defense_stages: state.opp_defense_stages,
    };
    if action < 4 {
        let d = calculate_damage(dex, &mut new_state, action, !maximizing);
        if maximizing {
            strike_active(&mut new_state.player_team, d);
        } else {
            strike_active(&mut new_state.enemy_team, d);
        }
        proof {
            let target = spec_apply_search_action(*dex, state@, action as int, maximizing);
            assert(new_state@.player_team =~= target.player_team);
            assert(new_state@.enemy_team =~= target.enemy_team);
            assert(new_state@ =~= target);
        }
    } else {
        let t = action - 3;
        proof {
            broadcast use Seq::lemma_filter_len;

        }
        if maximizing {
            let a0 = new_state.enemy_team[0];
            let b = new_state.enemy_team[t];
            new_state.enemy_team[0] = b;
            new_state.enemy_team[t] = a0;
            let parted = verify_team(&new_state.enemy_team);
            new_state.enemy_team = parted;
        } else {
            let a0 = new_state.player_team[0];
            let b = new_state.player_team[t];
            new_state.player_team[0] = b;
            new_state.player_team[t] = a0;
            let parted = verify_team(&new_state.player_team);
            new_state.player_team = parted;
        }
        proof {
            let target = spec_apply_search_action(*dex, state@, action as int, maximizing);
            assert(new_state@.player_team =~= target.player_team);
            assert(new_state@.enemy_team =~= target.enemy_team);
            assert(new_state@ =~= target);
        }
    }
    new_state
}

/// Plain, unpruned minimax over the same action space as the pruned
/// search; the reference its results are held to.
pub fn minimax_plain(
    dex: &MonsterDex,
    state: &BattleState,
    depth: u32,
    maximizing_player: bool,
) -> (v: i64)
    requires
        dex.wf(),
        state@.wf(*dex),
        state@.teams_alive_first(),
    ensures
        v as int == spec_minimax(*dex, state@, depth as nat, maximizing_player),
    decreases depth,
{
    let po = total_team_health(&state.player_team);
    let eo = total_team_health(&state.enemy_team);
    if depth == 0 || (po == 0 && eo == 0) {
        return evaluation_function(&state.player_team, &state.enemy_team);
    }
    let ns = if maximizing_player {
        num_switchable_mons(&state.enemy_team)
    } else {
        num_switchable_mons(&state.player_team)
    };
    let k = 4 + ns;
    let mut v: i64 = if maximizing_player {
        NEG_INFINITY
    } else {
        POS_INFINITY
    };
    let mut a: usize = 0;
    while a < k
        invariant
            dex.wf(),
            state@.wf(*dex),
            state@.teams_alive_first(),
            depth >= 1,
            !spec_battle_over(state@),
            a <= k,
            k == spec_num_actions(state@, maximizing_player),
            k <= 10,
            v as int == spec_best_prefix(*dex, state@, depth as nat, maximizing_player, a as int),
        decreases k - a,
    {
        let child = apply_search_action(dex, state, a, maximizing_player);
        let cv = minimax_plain(dex, &child, depth - 1, !maximizing_player);
        proof {
            assert(spec_best_prefix(*dex, state@, depth as nat, maximizing_player, a as int + 1)
                == {
                let c = spec_minimax(
                    *dex,
                    spec_apply_search_action(*dex, state@, a as int, maximizing_player),
                    (depth - 1) as nat,
                    !maximizing_player,
                );
                let b = spec_best_prefix(*dex, state@, depth as nat, maximizing_player, a as int);
                if maximizing_player {
                    if c > b {
                        c
                    } else {
                        b
                    }
                } else {
                    if c < b {
                        c
                    } else {
                        b
                    }
                }
            });
        }
        if maximizing_player {
            if cv > v {
                v = cv;
            }
        } else {
            if cv < v {
                v = cv;
            }
        }
        a = a + 1;
    }
    v
}

/// Alpha-beta pruned minimax. Returns the payoff and the action that
/// achieves it.
///
/// The contract is the classical soundness statement for fail-soft
/// pruning: a result strictly inside the window equals the unpruned
/// minimax value; a result at or below `alpha` is an upper bound on it;
/// a result at or above `beta` is a lower bound on it. On the full
/// window the result is therefore exactly the minimax value, and the
/// returned action is the first one attaining it. The action is `None`
/// only at a depth-0 or terminal leaf.
#[verifier::rlimit(100)]
#[verifier::spinoff_prover]
pub fn alphabeta(
    dex: &MonsterDex,
    state: &BattleState,
    depth: u32,
    alpha: i64,
    beta: i64,
    maximizing_player: bool,
) -> (r: (i64, Option<usize>))
    requires
        dex.wf(),
        state@.wf(*dex),
        state@.teams_alive_first(),
        NEG_INFINITY <= alpha < beta <= POS_INFINITY,
    ensures
        ({
            let v = spec_minimax(*dex, state@, depth as nat, maximizing_player);
            &&& -EVAL_BOUND <= r.0 <= EVAL_BOUND
            &&& (r.0 <= alpha ==> v <= r.0)
            &&& (alpha < r.0 < beta ==> v == r.0)
            &&& (r.0 >= beta ==> v >= r.0)
            &&& (r.1 is None <==> (depth == 0 || spec_battle_over(state@)))
            &&& ((alpha == NEG_INFINITY && beta == POS_INFINITY && depth > 0
                && !spec_battle_over(state@)) ==> (r.1 matches Some(act)
                && act < spec_num_actions(state@, maximizing_player)
                && spec_child_value(*dex, state@, (depth - 1) as nat, maximizing_player, act as int)
                    == r.0 && forall|l: int|
                0 <= l < act ==> (if maximizing_player {
                    #[trigger] spec_child_value(*dex, state@, (depth - 1) as nat, maximizing_player, l)
                        < r.0
                } else {
                    spec_child_value(*dex, state@, (depth - 1) as nat, maximizing_player, l) > r.0
                })))
        }),
    decreases depth,
{
    let po = total_team_health(&state.player_team);
    let eo = total_team_health(&state.enemy_team);
    if depth == 0 || (po == 0 && eo == 0) {
        proof {
            lemma_eval_bounds(*dex, state@);
        }
        return (evaluation_function(&state.player_team, &state.enemy_team), None);
    }
    let ghost s = state@;
    let ghost d = depth as nat;
    let ghost cd = (depth - 1) as nat;
    if maximizing_player {
        let ns = num_switchable_mons(&state.enemy_team);
        let k = 4 + ns;
        let mut value: i64 = NEG_INFINITY;
        let mut best_action: usize = 0;
        let mut ca = alpha;
        let mut a: usize = 0;
        while a < k
            invariant
                dex.wf(),
                s == state@,
                s.wf(*dex),
                s.teams_alive_first(),
                depth >= 1,
                d == depth as nat,
                cd == (depth - 1) as nat,
                !spec_battle_over(s),
                maximizing_player,
                a <= k,
                k == spec_num_actions(s, true),
                k <= 10,
                NEG_INFINITY <= alpha < beta <= POS_INFINITY,
                a == 0 ==> value == NEG_INFINITY,
                a >= 1 ==> -EVAL_BOUND <= value <= EVAL_BOUND,
                value < beta,
                ca == (if value > alpha {
                    value
                } else {
                    alpha
                }),
                value <= alpha ==> spec_best_prefix(*dex, s, d, true, a as int) <= value,
                value > alpha ==> spec_best_prefix(*dex, s, d, true, a as int) == value,
                (alpha == NEG_INFINITY && beta == POS_INFINITY && a >= 1) ==> (best_action < a
                    && spec_child_value(*dex, s, cd, true, best_action as int) == value
                    && forall|l: int|
                    0 <= l < best_action ==> #[trigger] spec_child_value(*dex, s, cd, true, l)
                        < value),
            decreases k - a,
        {
            proof {
                if alpha == NEG_INFINITY && beta == POS_INFINITY && a >= 1 {
                    lemma_best_prefix_props(*dex, s, d, true, a as int);
                }
            }
            let child = apply_search_action(dex, state, a, true);
            let cr = alphabeta(dex, &child, depth - 1, ca, beta, false);
            let cv = cr.0;
            let ghost vc = spec_child_value(*dex, s, cd, true, a as int);
            proof {
                assert(child@ == spec_apply_search_action(*dex, s, a as int, true));
                assert(vc == spec_minimax(*dex, child@, cd, false));
                assert(spec_best_prefix(*dex, s, d, true, a as int + 1) == (if vc
                    > spec_best_prefix(*dex, s, d, true, a as int) {
                    vc
                } else {
                    spec_best_prefix(*dex, s, d, true, a as int)
                }));
            }
            if cv > value {
                value = cv;
                best_action = a;
            }
            if value >= beta {
                proof {
                    lemma_best_prefix_props(*dex, s, d, true, k as int);
                    assert(spec_minimax(*dex, s, d, true) == spec_best_prefix(
                        *dex,
                        s,
                        d,
                        true,
                        k as int,
                    ));
                    assert(value == cv);
                    assert(vc >= cv);
                    assert(spec_child_value(*dex, s, (d - 1) as nat, true, a as int) == vc);
                    assert(vc <= spec_best_prefix(*dex, s, d, true, k as int));
                    assert(spec_minimax(*dex, state@, depth as nat, true) >= value);
                }
                return (value, Some(best_action));
            }
            if value > ca {
                ca = value;
            }
            a = a + 1;
        }
        proof {
            assert(spec_minimax(*dex, s, d, true) == spec_best_prefix(*dex, s, d, true, k as int));
        }
        (value, Some(best_action))
    } else {
        let ns = num_switchable_mons(&state.player_team);
        let k = 4 + ns;
        let mut value: i64 = POS_INFINITY;
        let mut best_action: usize = 0;
        let mut cb = beta;
        let mut a: usize = 0;
        while a < k
            invariant
                dex.wf(),
                s == state@,
                s.wf(*dex),
                s.teams_alive_first(),
                depth >= 1,
                d == depth as nat,
                cd == (depth - 1) as nat,
                !spec_battle_over(s),
                !maximizing_player,
                a <= k,
                k == spec_num_actions(s, false),
                k <= 10,
                NEG_INFINITY <= alpha < beta <= POS_INFINITY,
                a == 0 ==> value == POS_INFINITY,
                a >= 1 ==> -EVAL_BOUND <= value <= EVAL_BOUND,
                value > alpha,
                cb == (if value < beta {
                    value
                } else {
                    beta
                }),
                value >= beta ==> spec_best_prefix(*dex, s, d, false, a as int) >= value,
                value < beta ==> spec_best_prefix(*dex, s, d, false, a as int) == value,
                (alpha == NEG_INFINITY && beta == POS_INFINITY && a >= 1) ==> (best_action < a
                    && spec_child_value(*dex, s, cd, false, best_action as int) == value
                    && forall|l: int|
                    0 <= l < best_action ==> #[trigger] spec_child_value(*dex, s, cd, false, l)
                        > value),
            decreases k - a,
        {
            proof {
                if alpha == NEG_INFINITY && beta == POS_INFINITY && a >= 1 {
                    lemma_best_prefix_props(*dex, s, d, false, a as int);
                }
            }
            let child = apply_search_action(dex, state, a, false);
            let cr = alphabeta(dex, &child, depth - 1, alpha, cb, true);
            let cv = cr.0;
            let ghost vc = spec_child_value(*dex, s, cd, false, a as int);
            proof {
                assert(child@ == spec_apply_search_action(*dex, s, a as int, false));
                assert(vc == spec_minimax(*dex, child@, cd, true));
                assert(spec_best_prefix(*dex, s, d, false, a as int + 1) == (if vc
                    < spec_best_prefix(*dex, s, d, false, a as int) {
                    vc
                } else {
                    spec_best_prefix(*dex, s, d, false, a as int)
                }));
            }
            if cv < value {
                value = cv;
                best_action = a;
            }
            if value <= alpha {
                proof {
                    lemma_best_prefix_props(*dex, s, d, false, k as int);
                    assert(spec_minimax(*dex, s, d, false) == spec_best_prefix(
                        *dex,
                        s,
                        d,
                        false,
                        k as int,
                    ));
                    assert(value == cv);
                    assert(vc <= cv);
                    assert(spec_child_value(*dex, s, (d - 1) as nat, false, a as int) == vc);
                    assert(vc >= spec_best_prefix(*dex, s, d, false, k as int));
                    assert(spec_minimax(*dex, state@, depth as nat, false) <= value);
                }
                return (value, Some(best_action));
            }
            if value < cb {
                cb = value;
            }
            a = a + 1;
        }
        proof {
            assert(spec_minimax(*dex, s, d, false) == spec_best_prefix(
                *dex,
                s,
                d,
                false,
                k as int,
            ));
        }
        (value, Some(best_action))
    }
}

/// Chooses the AI's action by an alpha-beta search over the full
/// window: the returned payoff is exactly the plain minimax value, so
/// pruning never changes the chosen value, and the returned action is
/// the first one attaining it (`None` only at depth 0 or a terminal
/// state).
pub fn choose_ai_action(dex: &MonsterDex, state: &BattleState, depth: u32) -> (r: (
    i64,
    Option<usize>,
))
    requires
        dex.wf(),
        state@.wf(*dex),
        state@.teams_alive_first(),
    ensures
        r.0 == spec_minimax(*dex, state@, depth as nat, true),
        r.1 is None <==> (depth == 0 || spec_battle_over(state@)),
        (depth > 0 && !spec_battle_over(state@)) ==> (r.1 matches Some(act) && act
            < spec_num_actions(state@, true) && spec_child_value(
            *dex,
            state@,
            (depth - 1) as nat,
            true,
            act as int,
        ) == r.0 && forall|l: int|
            0 <= l < act ==> #[trigger] spec_child_value(*dex, state@, (depth - 1) as nat, true, l)
                < r.0),
{
    let r = alphabeta(dex, state, depth, NEG_INFINITY, POS_INFINITY, true);
    r
}

} // verus!
