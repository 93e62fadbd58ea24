use monster_town::maze::Maze;
use monster_town::rng::{choose_distinct_indices, rand_below};
use monster_town::overworld::{random_spawn, resist, select_random_team};
use monster_town::monster::MAX_HEALTH;

#[test]
fn single_cell_maze_has_fixed_walls() {
    // the boundary rules force three walls on a 1 x 1 grid; the right
    // wall stays open because only rows after the first close it
    let maze = Maze::create_random_maze(1, 1);
    let cell = maze.maze[0][0];
    assert!(cell.top_wall);
    assert!(cell.left_wall);
    assert!(cell.bottom_wall);
    assert!(!cell.right_wall);
}

#[test]
fn generated_mazes_have_the_requested_shape() {
    for (h, w) in [(16usize, 9usize), (9, 6), (5, 5), (1, 8), (8, 1), (2, 2)] {
        let maze = Maze::create_random_maze(h, w);
        assert_eq!(maze.maze_height, h);
        assert_eq!(maze.maze_width, w);
        assert_eq!(maze.maze.len(), h);
        for row in maze.maze.iter() {
            assert_eq!(row.len(), w);
        }
    }
}

#[test]
fn generated_mazes_mark_their_borders() {
    let maze = Maze::create_random_maze(5, 7);
    for r in 0..5 {
        for c in 0..7 {
            let cell = maze.maze[r][c];
            assert!(cell.top_wall);
            assert_eq!(cell.left_wall, c == 0);
        }
        assert_eq!(maze.maze[r][6].right_wall, r >= 1);
    }
    for c in 0..7 {
        assert!(maze.maze[4][c].bottom_wall);
    }
}

#[test]
fn every_generated_maze_is_fully_connected() {
    // flood fill over open passages reaches every cell, for the gym
    // sizes the game uses and for degenerate shapes
    for (h, w) in [
        (16usize, 9usize),
        (9, 6),
        (20, 16),
        (5, 5),
        (1, 1),
        (1, 8),
        (8, 1),
        (2, 2),
        (3, 12),
    ] {
        let maze = Maze::create_random_maze(h, w);
        assert!(maze.is_connected(), "maze {}x{} not connected", h, w);
    }
}

#[test]
fn connectivity_repeats_across_random_runs() {
    for _ in 0..20 {
        let maze = Maze::create_random_maze(6, 6);
        assert!(maze.is_connected());
    }
}

#[test]
fn resist_decays_velocity_only_without_input() {
    assert_eq!(resist(5, 0), -1);
    assert_eq!(resist(-3, 0), 1);
    assert_eq!(resist(0, 0), 0);
    assert_eq!(resist(4, 2), 2);
    assert_eq!(resist(-4, -1), -1);
}

#[test]
fn random_team_is_distinct_and_at_full_health() {
    let team = select_random_team(5, 3);
    assert_eq!(team.len(), 3);
    for (i, member) in team.iter().enumerate() {
        assert!(member.species < 5);
        assert_eq!(member.health, MAX_HEALTH);
        for other in team.iter().skip(i + 1) {
            assert_ne!(member.species, other.species);
        }
    }
    // asking for more members than there are species yields them all
    let small = select_random_team(2, 6);
    assert_eq!(small.len(), 2);
}

#[test]
fn spawn_check_runs() {
    let mut seen_false = false;
    for _ in 0..200 {
        if !random_spawn() {
            seen_false = true;
        }
    }
    // a 1-in-100 event cannot fire 200 times in a row with any
    // plausible generator
    assert!(seen_false);
}

#[test]
fn random_draws_stay_below_their_bound() {
    for _ in 0..200 {
        assert!(rand_below(10) < 10);
        assert!(rand_below(1) == 0);
    }
}

#[test]
fn index_samples_are_distinct_and_in_range() {
    let picks = choose_distinct_indices(7, 3);
    assert_eq!(picks.len(), 3);
    for (i, &p) in picks.iter().enumerate() {
        assert!(p < 7);
        for &q in picks.iter().skip(i + 1) {
            assert_ne!(p, q);
        }
    }
    assert_eq!(choose_distinct_indices(2, 9).len(), 2);
    assert_eq!(choose_distinct_indices(0, 3).len(), 0);
}
