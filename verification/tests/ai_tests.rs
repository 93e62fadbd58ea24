use monster_town::ai::{
    alphabeta, choose_ai_action, evaluation_function, minimax_plain, num_switchable_mons,
    NEG_INFINITY, POS_INFINITY,
};
use monster_town::battle::{resolve_turn, validate_state, BattleAction, BattleState, TeamMember};
use monster_town::monster::{ElementType, Monster, MonsterDex, Move, MAX_HEALTH};

fn mv(name: &str, damage: u32, sa: i32, sd: i32, oa: i32, od: i32, t: ElementType) -> Move {
    Move {
        name: String::from(name),
        damage,
        self_attack_stages: sa,
        self_defense_stages: sd,
        opp_attack_stages: oa,
        opp_defense_stages: od,
        attack_type: t,
        effect: String::new(),
    }
}

fn test_dex() -> MonsterDex {
    let moves = vec![
        mv("Tackle", 40, 0, 0, 0, 0, ElementType::Normal),
        mv("Growl", 0, 0, 0, -1, 0, ElementType::Normal),
        mv("Ember", 60, 0, 0, 0, 0, ElementType::Fire),
        mv("Bubble", 20, 0, 1, 0, -1, ElementType::Water),
    ];
    let monsters = vec![
        Monster {
            attack_stat: 50,
            defense_stat: 50,
            moves: vec![0, 1, 2, 3],
            monster_type: ElementType::Normal,
        },
        Monster {
            attack_stat: 60,
            defense_stat: 40,
            moves: vec![2, 0, 1, 3],
            monster_type: ElementType::Fire,
        },
        Monster {
            attack_stat: 45,
            defense_stat: 55,
            moves: vec![3, 2, 0, 1],
            monster_type: ElementType::Water,
        },
    ];
    let dex = MonsterDex { moves, monsters };
    assert!(dex.validate());
    dex
}

fn m(species: usize, health: u32) -> TeamMember {
    TeamMember { species, health }
}

fn state(player: Vec<TeamMember>, enemy: Vec<TeamMember>) -> BattleState {
    BattleState {
        player_turn: false,
        player_team: player,
        enemy_team: enemy,
        self_attack_stages: 0,
        self_defense_stages: 0,
        opp_attack_stages: 1,
        opp_defense_stages: -1,
    }
}

#[test]
fn pruned_search_matches_plain_minimax() {
    let dex = test_dex();
    let states = [
        state(vec![m(0, MAX_HEALTH)], vec![m(1, MAX_HEALTH)]),
        state(vec![m(0, 3000), m(2, 800)], vec![m(1, 2500), m(0, 0)]),
        state(
            vec![m(0, 4000), m(1, 2000), m(2, 600)],
            vec![m(2, 5000), m(1, 100), m(0, 9000)],
        ),
    ];
    for st in states.iter() {
        for depth in 0..=3 {
            let plain = minimax_plain(&dex, st, depth, true);
            let (pruned, action) = choose_ai_action(&dex, st, depth);
            assert_eq!(pruned, plain);
            assert_eq!(action.is_none(), depth == 0);
        }
    }
}

#[test]
fn pruned_search_matches_plain_minimax_for_the_minimizing_side() {
    let dex = test_dex();
    let st = state(vec![m(0, 4000), m(2, 2000)], vec![m(1, 3000), m(2, 500)]);
    for depth in 0..=3 {
        let plain = minimax_plain(&dex, &st, depth, false);
        let (pruned, _) = alphabeta(&dex, &st, depth, NEG_INFINITY, POS_INFINITY, false);
        assert_eq!(pruned, plain);
    }
}

#[test]
fn depth_zero_returns_the_evaluation() {
    let dex = test_dex();
    let st = state(vec![m(0, 4000), m(2, 2000)], vec![m(1, 3000)]);
    let (v, action) = choose_ai_action(&dex, &st, 0);
    assert_eq!(v, 3000 - 6000);
    assert_eq!(action, None);
    assert_eq!(
        evaluation_function(&st.player_team, &st.enemy_team),
        -3000
    );
}

#[test]
fn chosen_action_is_the_first_best_one() {
    let dex = test_dex();
    // one enemy monster, no switches: four moves; Ember (its move 0)
    // is its strongest, so the first action already attains the best
    // payoff at depth 1
    let st = state(vec![m(0, MAX_HEALTH)], vec![m(1, MAX_HEALTH)]);
    let (v, action) = choose_ai_action(&dex, &st, 1);
    assert_eq!(action, Some(0));
    let plain = minimax_plain(&dex, &st, 1, true);
    assert_eq!(v, plain);
}

#[test]
fn switchable_count_ignores_the_active_and_the_fainted() {
    assert_eq!(num_switchable_mons(&vec![m(0, 100), m(1, 200), m(2, 0)]), 1);
    assert_eq!(num_switchable_mons(&vec![m(0, 100)]), 0);
    assert_eq!(num_switchable_mons(&vec![m(0, 0), m(1, 0)]), 0);
    assert_eq!(num_switchable_mons(&vec![m(0, 1), m(1, 1), m(2, 1)]), 2);
}

#[test]
fn terminal_state_reports_no_action() {
    let dex = test_dex();
    let st = state(vec![m(0, 0)], vec![m(1, 0)]);
    let (v, action) = choose_ai_action(&dex, &st, 3);
    assert_eq!(v, 0);
    assert_eq!(action, None);
}

#[test]
fn a_whole_battle_keeps_every_invariant() {
    let dex = test_dex();
    let mut st = state(
        vec![m(0, 4000), m(1, 2000), m(2, 600)],
        vec![m(2, 5000), m(1, 9000)],
    );
    st.player_turn = true;
    assert!(validate_state(&dex, &st));
    for _turn in 0..60 {
        // both sides play the searched best action for the enemy's
        // horizon; the search enumerates the side to move either way
        let (_payoff, best) = choose_ai_action(&dex, &st, 2);
        let action = match best {
            Some(a) if a >= 4 => BattleAction::Switch(a - 3),
            Some(a) => BattleAction::UseMove(a),
            None => break,
        };
        let action = if st.player_turn { BattleAction::UseMove(0) } else { action };
        let outcome = resolve_turn(&dex, &mut st, action).unwrap();
        assert!(validate_state(&dex, &st));
        if outcome.team_defeated {
            return;
        }
    }
}
