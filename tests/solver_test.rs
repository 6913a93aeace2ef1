use gsnake_levels::model::{Direction, GameStatus, Position};
use gsnake_levels::solver::{direction_code, Decision, Search, SearchStep, StateKey, EXPLORATION_ORDER};

fn key(head: (i32, i32), status: GameStatus) -> StateKey {
    StateKey {
        snake: vec![Position::new(head.0, head.1)],
        snake_dir: direction_code(Some(Direction::East)),
        food: vec![],
        floating_food: vec![],
        falling_food: vec![],
        stones: vec![],
        spikes: vec![],
        exit_is_solid: false,
        food_collected: 0,
        status,
    }
}

/// A corridor of cells 0..=4 along x; the exit is at x = `exit`. East moves right, West left;
/// other moves are rejected. Reaching the exit completes the level.
fn solve_corridor(exit: i32, max_depth: usize) -> Option<Vec<Direction>> {
    let mut search = Search::new(max_depth);
    let mut cells: Vec<i32> = vec![0];
    loop {
        match search.next() {
            SearchStep::Exhausted => return None,
            SearchStep::Inspect { node } => {
                let x = cells[node];
                let status = if x == exit { GameStatus::LevelComplete } else { GameStatus::Playing };
                match search.report(node, status, key((x, 0), status)) {
                    Decision::Solved(path) => return Some(path),
                    Decision::Discard => {},
                    Decision::Expand => {
                        for d in EXPLORATION_ORDER {
                            let next = match d {
                                Direction::East if x < 4 => x + 1,
                                Direction::West if x > 0 => x - 1,
                                _ => continue,
                            };
                            let id = search.add_successor(node, d);
                            assert_eq!(id, cells.len());
                            cells.push(next);
                        }
                    },
                }
            },
        }
    }
}

#[test]
fn search_finds_a_shortest_path() {
    assert_eq!(
        solve_corridor(3, 10),
        Some(vec![Direction::East, Direction::East, Direction::East])
    );
    assert_eq!(solve_corridor(0, 10), Some(vec![]));
}

#[test]
fn search_returns_completions_found_exactly_at_the_bound() {
    assert_eq!(solve_corridor(2, 2), Some(vec![Direction::East, Direction::East]));
    assert_eq!(solve_corridor(3, 2), None);
}

#[test]
fn search_fails_without_a_reachable_exit() {
    assert_eq!(solve_corridor(9, 50), None);
}

#[test]
fn direction_codes() {
    assert_eq!(direction_code(Some(Direction::North)), 0);
    assert_eq!(direction_code(Some(Direction::West)), 3);
    assert_eq!(direction_code(None), -1);
}

#[test]
fn game_over_and_repeats_are_discarded() {
    let mut search = Search::new(5);
    match search.next() {
        SearchStep::Inspect { node } => {
            assert_eq!(node, 0);
            assert!(matches!(
                search.report(node, GameStatus::Playing, key((0, 0), GameStatus::Playing)),
                Decision::Expand
            ));
            let a = search.add_successor(node, Direction::North);
            let b = search.add_successor(node, Direction::South);
            assert_eq!((a, b), (1, 2));
        },
        SearchStep::Exhausted => panic!("the initial state is pending"),
    }
    match search.next() {
        SearchStep::Inspect { node } => {
            assert_eq!(node, 1);
            assert!(matches!(
                search.report(node, GameStatus::Playing, key((0, 0), GameStatus::Playing)),
                Decision::Discard
            ));
        },
        SearchStep::Exhausted => panic!("node 1 is pending"),
    }
    match search.next() {
        SearchStep::Inspect { node } => {
            assert_eq!(node, 2);
            assert!(matches!(
                search.report(node, GameStatus::GameOver, key((0, 1), GameStatus::GameOver)),
                Decision::Discard
            ));
        },
        SearchStep::Exhausted => panic!("node 2 is pending"),
    }
    assert!(matches!(search.next(), SearchStep::Exhausted));
}
