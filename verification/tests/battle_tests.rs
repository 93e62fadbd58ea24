use monster_town::battle::{
    check_alive_first, next_available_mon, resolve_turn, swap_team_slots, total_team_health,
    turn_calc, validate_state, verify_team, ActionError, BattleAction, BattleState, TeamMember,
};
use monster_town::monster::{
    str_effectiveness, type_effectiveness, ElementType, Monster, MonsterDex, Move, MAX_HEALTH,
};

fn mv(name: &str, damage: u32, sa: i32, sd: i32, oa: i32, od: i32, t: ElementType) -> Move {
    Move {
        name: String::from(name),
        damage,
        self_attack_stages: sa,
        self_defense_stages: sd,
        opp_attack_stages: oa,
        opp_defense_stages: od,
        attack_type: t,
        effect: String::new(),
    }
}

fn test_dex() -> MonsterDex {
    let moves = vec![
        mv("Tackle", 40, 0, 0, 0, 0, ElementType::Normal),
        mv("Growl", 0, 0, 0, -1, 0, ElementType::Normal),
        mv("Ember", 40, 0, 0, 0, 0, ElementType::Fire),
        mv("Surge", 0, 10, 10, -10, -10, ElementType::Normal),
        mv("WaterGun", 40, 0, 0, 0, 0, ElementType::Water),
    ];
    let monsters = vec![
        Monster {
            attack_stat: 50,
            defense_stat: 50,
            moves: vec![0, 1, 2, 3],
            monster_type: ElementType::Normal,
        },
        Monster {
            attack_stat: 60,
            defense_stat: 40,
            moves: vec![0, 1, 2, 3],
            monster_type: ElementType::Fire,
        },
        Monster {
            attack_stat: 50,
            defense_stat: 50,
            moves: vec![0, 1, 2, 3],
            monster_type: ElementType::Water,
        },
        Monster {
            attack_stat: 50,
            defense_stat: 50,
            moves: vec![4, 1, 2, 3],
            monster_type: ElementType::Grass,
        },
        Monster {
            attack_stat: 50,
            defense_stat: 50,
            moves: vec![0, 1, 2, 3],
            monster_type: ElementType::Fire,
        },
    ];
    let dex = MonsterDex { moves, monsters };
    assert!(dex.validate());
    dex
}

fn state(player: Vec<TeamMember>, enemy: Vec<TeamMember>, player_turn: bool) -> BattleState {
    BattleState {
        player_turn,
        player_team: player,
        enemy_team: enemy,
        self_attack_stages: 0,
        self_defense_stages: 0,
        opp_attack_stages: 0,
        opp_defense_stages: 0,
    }
}

fn m(species: usize, health: u32) -> TeamMember {
    TeamMember { species, health }
}

#[test]
fn neutral_hit_deals_twelve_points() {
    // attack 50, defense 50, stages 0, power 40, neutral matchup, no
    // same-type bonus: 30 * 40 * (50/50) / 100 = 12.0 points
    let dex = test_dex();
    let mut st = state(vec![m(2, MAX_HEALTH)], vec![m(0, MAX_HEALTH)], true);
    assert!(validate_state(&dex, &st));
    let out = resolve_turn(&dex, &mut st, BattleAction::UseMove(0)).unwrap();
    assert_eq!(out.damage, 1200);
    assert_eq!(out.damage as f32 / 100.0, 12.0);
    assert_eq!(st.enemy_team[0].health, 8800);
    assert_eq!(st.enemy_team[0].health as f32 / 100.0, 88.0);
    assert!(!out.fainted);
    assert!(!out.team_defeated);
    assert!(!st.player_turn);
}

#[test]
fn super_effective_hit_deals_twentyfour_points() {
    // same numbers, but a Water move against a Fire defender doubles it
    let dex = test_dex();
    let mut st = state(vec![m(3, MAX_HEALTH)], vec![m(4, MAX_HEALTH)], true);
    let out = resolve_turn(&dex, &mut st, BattleAction::UseMove(0)).unwrap();
    assert_eq!(out.damage, 2400);
    assert_eq!(out.damage as f32 / 100.0, 24.0);
    assert_eq!(st.enemy_team[0].health, 7600);
    assert_eq!(out.effectiveness.as_deref(), Some("It was super effective!"));
}

#[test]
fn status_move_changes_no_health_and_says_nothing() {
    let dex = test_dex();
    let mut st = state(vec![m(0, 9000)], vec![m(1, 7000)], true);
    let out = resolve_turn(&dex, &mut st, BattleAction::UseMove(1)).unwrap();
    assert_eq!(out.damage, 0);
    assert!(out.effectiveness.is_none());
    assert_eq!(st.player_team[0].health, 9000);
    assert_eq!(st.enemy_team[0].health, 7000);
    assert_eq!(st.opp_attack_stages, -1);
}

#[test]
fn stage_counters_stay_clamped() {
    let dex = test_dex();
    let mut st = state(vec![m(0, MAX_HEALTH)], vec![m(0, MAX_HEALTH)], true);
    // Surge carries +10/+10/-10/-10 deltas; the first use clamps all
    // four counters to the limits at once
    resolve_turn(&dex, &mut st, BattleAction::UseMove(3)).unwrap();
    assert_eq!(st.self_attack_stages, 6);
    assert_eq!(st.self_defense_stages, 6);
    assert_eq!(st.opp_attack_stages, -6);
    assert_eq!(st.opp_defense_stages, -6);
    // and however many more times the sides trade it, every counter
    // stays within the clamp bounds
    for _ in 0..5 {
        resolve_turn(&dex, &mut st, BattleAction::UseMove(3)).unwrap();
        assert!(st.self_attack_stages >= -6 && st.self_attack_stages <= 6);
        assert!(st.self_defense_stages >= -6 && st.self_defense_stages <= 6);
        assert!(st.opp_attack_stages >= -6 && st.opp_attack_stages <= 6);
        assert!(st.opp_defense_stages >= -6 && st.opp_defense_stages <= 6);
    }
}

#[test]
fn lowered_defense_raises_damage_and_raised_defense_lowers_it() {
    let dex = test_dex();
    let mut weak = state(vec![m(2, MAX_HEALTH)], vec![m(0, MAX_HEALTH)], true);
    weak.opp_defense_stages = -6;
    let hurt_more = resolve_turn(&dex, &mut weak, BattleAction::UseMove(0)).unwrap();
    let mut tough = state(vec![m(2, MAX_HEALTH)], vec![m(0, MAX_HEALTH)], true);
    tough.opp_defense_stages = 6;
    let hurt_less = resolve_turn(&dex, &mut tough, BattleAction::UseMove(0)).unwrap();
    assert!(hurt_more.damage > 1200);
    assert!(hurt_less.damage < 1200);
    // and a raised attack stage deals at least the neutral damage
    let mut strong = state(vec![m(2, MAX_HEALTH)], vec![m(0, MAX_HEALTH)], true);
    strong.self_attack_stages = 6;
    let heavy = resolve_turn(&dex, &mut strong, BattleAction::UseMove(0)).unwrap();
    assert!(heavy.damage >= 1200);
}

#[test]
fn type_effectiveness_both_orders_in_fixed_set() {
    let all = [
        ElementType::Grass,
        ElementType::Fire,
        ElementType::Water,
        ElementType::Electric,
        ElementType::Ground,
        ElementType::Flying,
        ElementType::Normal,
    ];
    for &a in all.iter() {
        for &d in all.iter() {
            let ab = type_effectiveness(a, d) as f32 / 2.0;
            let ba = type_effectiveness(d, a) as f32 / 2.0;
            for v in [ab, ba] {
                assert!(v == 0.0 || v == 0.5 || v == 1.0 || v == 2.0);
            }
        }
    }
    assert_eq!(type_effectiveness(ElementType::Water, ElementType::Fire), 4);
    assert_eq!(type_effectiveness(ElementType::Fire, ElementType::Water), 1);
    assert_eq!(type_effectiveness(ElementType::Electric, ElementType::Ground), 0);
    assert_eq!(type_effectiveness(ElementType::Ground, ElementType::Flying), 0);
    assert_eq!(type_effectiveness(ElementType::Normal, ElementType::Normal), 2);
}

#[test]
fn effectiveness_messages_match_multiplier() {
    let dex = test_dex();
    let ember = &dex.moves[2];
    assert_eq!(
        str_effectiveness(ember, ElementType::Grass).as_deref(),
        Some("It was super effective!")
    );
    assert_eq!(
        str_effectiveness(ember, ElementType::Water).as_deref(),
        Some("It was not very effective.")
    );
    assert_eq!(str_effectiveness(ember, ElementType::Normal), None);
    let growl = &dex.moves[1];
    assert_eq!(str_effectiveness(growl, ElementType::Grass), None);
    let shock = mv("Shock", 40, 0, 0, 0, 0, ElementType::Electric);
    assert_eq!(
        str_effectiveness(&shock, ElementType::Ground).as_deref(),
        Some("It had no effect.")
    );
}

#[test]
fn repartition_moves_alive_first_and_is_stable() {
    // a team [(A,0),(B,50),(C,0)] repartitions to [(B,50),(A,0),(C,0)]
    let team = vec![m(0, 0), m(1, 5000), m(2, 0)];
    let parted = verify_team(&team);
    assert_eq!(parted, vec![m(1, 5000), m(0, 0), m(2, 0)]);
}

#[test]
fn repartition_is_idempotent() {
    let team = vec![m(0, 0), m(1, 5000), m(2, 0), m(3, 100), m(4, 0)];
    let once = verify_team(&team);
    let twice = verify_team(&once);
    assert_eq!(once, twice);
    assert!(check_alive_first(&once));
}

#[test]
fn faint_forces_switch_and_keeps_the_turn() {
    let dex = test_dex();
    let mut st = state(vec![m(2, MAX_HEALTH)], vec![m(0, 500), m(1, 5000)], true);
    let out = resolve_turn(&dex, &mut st, BattleAction::UseMove(0)).unwrap();
    assert!(out.fainted);
    assert!(!out.team_defeated);
    // the fainted active slot moved back; the backup leads
    assert_eq!(st.enemy_team, vec![m(1, 5000), m(0, 0)]);
    // the forced switch-in consumes the defender's turn
    assert!(st.player_turn);
}

#[test]
fn wiping_the_player_restores_their_team() {
    let dex = test_dex();
    let mut st = state(vec![m(0, 500)], vec![m(1, MAX_HEALTH)], false);
    let out = resolve_turn(&dex, &mut st, BattleAction::UseMove(0)).unwrap();
    assert!(out.fainted);
    assert!(out.team_defeated);
    // restore-on-loss: the player's roster comes back at full health
    assert_eq!(st.player_team, vec![m(0, MAX_HEALTH)]);
}

#[test]
fn wiping_the_enemy_leaves_their_team_down() {
    let dex = test_dex();
    let mut st = state(vec![m(2, MAX_HEALTH)], vec![m(0, 500)], true);
    let out = resolve_turn(&dex, &mut st, BattleAction::UseMove(0)).unwrap();
    assert!(out.fainted);
    assert!(out.team_defeated);
    assert_eq!(st.enemy_team, vec![m(0, 0)]);
}

#[test]
fn invalid_actions_are_rejected_without_mutation() {
    let dex = test_dex();
    let mut st = state(vec![m(0, 4000), m(1, 0), m(2, 3000)], vec![m(1, MAX_HEALTH)], true);
    let before = st.player_team.clone();
    assert_eq!(
        resolve_turn(&dex, &mut st, BattleAction::UseMove(4)),
        Err(ActionError::InvalidMoveIndex)
    );
    assert_eq!(
        resolve_turn(&dex, &mut st, BattleAction::Switch(0)),
        Err(ActionError::InvalidSwitchIndex)
    );
    assert_eq!(
        resolve_turn(&dex, &mut st, BattleAction::Switch(3)),
        Err(ActionError::InvalidSwitchIndex)
    );
    assert_eq!(
        resolve_turn(&dex, &mut st, BattleAction::Switch(1)),
        Err(ActionError::SwitchToFainted)
    );
    assert_eq!(st.player_team, before);
    assert!(st.player_turn);
}

#[test]
fn switching_brings_the_target_to_the_front() {
    let dex = test_dex();
    let mut st = state(vec![m(0, 4000), m(1, 0), m(2, 3000)], vec![m(1, MAX_HEALTH)], true);
    let out = resolve_turn(&dex, &mut st, BattleAction::Switch(2)).unwrap();
    assert_eq!(out.damage, 0);
    assert!(!out.fainted);
    // swap with slot 2, then repartition alive-first
    assert_eq!(st.player_team, vec![m(2, 3000), m(0, 4000), m(1, 0)]);
    assert!(!st.player_turn);
}

#[test]
fn manual_swap_checks_bounds() {
    let mut team = vec![m(0, 100), m(1, 200), m(2, 300)];
    assert_eq!(swap_team_slots(&mut team, 0, 2), Ok(()));
    assert_eq!(team, vec![m(2, 300), m(1, 200), m(0, 100)]);
    assert_eq!(swap_team_slots(&mut team, 0, 3), Err(ActionError::InvalidSwitchIndex));
    assert_eq!(team, vec![m(2, 300), m(1, 200), m(0, 100)]);
}

#[test]
fn turn_order_ties_favour_the_player() {
    let dex = test_dex();
    let even = state(vec![m(0, MAX_HEALTH)], vec![m(2, MAX_HEALTH)], true);
    assert!(turn_calc(&dex, &even));
    let outgunned = state(vec![m(0, MAX_HEALTH)], vec![m(1, MAX_HEALTH)], true);
    assert!(!turn_calc(&dex, &outgunned));
}

#[test]
fn first_standing_member_is_found() {
    assert_eq!(next_available_mon(&vec![m(0, 0), m(1, 5)]), Some(1));
    assert_eq!(next_available_mon(&vec![m(0, 7), m(1, 5)]), Some(0));
    assert_eq!(next_available_mon(&vec![m(0, 0), m(1, 0)]), None);
}

#[test]
fn team_health_sums_in_centipoints() {
    assert_eq!(total_team_health(&vec![m(0, 100), m(1, 250), m(2, 0)]), 350);
    assert_eq!(total_team_health(&vec![m(0, 0)]), 0);
}

#[test]
fn validators_reject_bad_data() {
    let dex = test_dex();
    let bad_dex = MonsterDex {
        moves: vec![mv("Tackle", 40, 0, 0, 0, 0, ElementType::Normal)],
        monsters: vec![Monster {
            attack_stat: 50,
            defense_stat: 0,
            moves: vec![0, 0, 0, 0],
            monster_type: ElementType::Normal,
        }],
    };
    assert!(!bad_dex.validate());
    let not_alive_first = state(vec![m(0, 0), m(1, 50)], vec![m(0, 100)], true);
    assert!(!validate_state(&dex, &not_alive_first));
    let bad_species = state(vec![m(9, 100)], vec![m(0, 100)], true);
    assert!(!validate_state(&dex, &bad_species));
    let good = state(vec![m(1, 50), m(0, 0)], vec![m(0, 100)], true);
    assert!(validate_state(&dex, &good));
}
