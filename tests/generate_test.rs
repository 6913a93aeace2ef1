use gsnake_levels::generate::{
    derive_total_food, ensure_total_food, parse_filter, stamp_difficulty, sync_filter,
};
use gsnake_levels::levels::DEFAULT_DIFFICULTIES;
use gsnake_levels::model::{Direction, GridSize, Level, Position};
use gsnake_levels::sync_metadata::{resolve_difficulties, DifficultyError};

fn level_with_food(food: usize, floating: usize, falling: usize, total: Option<u32>) -> Level {
    Level {
        id: 1,
        name: "Derived Total Food".to_string(),
        difficulty: Some("easy".to_string()),
        grid_size: GridSize::new(10, 10),
        snake: vec![Position::new(0, 0)],
        obstacles: vec![],
        food: (0..food).map(|i| Position::new(i as i32, 0)).collect(),
        exit: Position::new(5, 5),
        snake_direction: Direction::East,
        floating_food: (0..floating).map(|i| Position::new(i as i32, 1)).collect(),
        falling_food: (0..falling).map(|i| Position::new(i as i32, 2)).collect(),
        stones: vec![],
        spikes: vec![],
        exit_is_solid: None,
        total_food: total,
    }
}

#[test]
fn test_parse_filter_defaults_to_all_difficulties() {
    assert_eq!(parse_filter(None).unwrap(), DEFAULT_DIFFICULTIES.to_vec());
}

#[test]
fn test_parse_filter_is_case_insensitive_and_ordered() {
    let filtered = parse_filter(Some(" hard , EASY ")).unwrap();
    assert_eq!(filtered, vec!["easy", "hard"]);
}

#[test]
fn test_parse_filter_unknown_value_fails() {
    let result = parse_filter(Some("legendary"));
    assert!(result.is_err());
    let error = result.expect_err("Expected invalid filter error");
    assert!(error
        .message()
        .contains("Filter did not match any known difficulty"));
}

#[test]
fn parse_filter_ignores_repeats_and_empty_items() {
    assert_eq!(parse_filter(Some("medium,,MEDIUM, medium")).unwrap(), vec!["medium"]);
    assert!(parse_filter(Some("")).is_err());
    assert!(parse_filter(Some(" , ")).is_err());
}

#[test]
fn sync_filter_is_none_for_all_difficulties() {
    assert_eq!(sync_filter(&vec!["easy", "medium", "hard"]), None);
    assert_eq!(sync_filter(&vec!["easy", "hard"]), Some("easy,hard".to_string()));
    assert_eq!(sync_filter(&vec!["medium"]), Some("medium".to_string()));
}

#[test]
fn test_load_level_derives_total_food_when_missing() {
    let mut level = level_with_food(1, 1, 2, None);
    assert_eq!(ensure_total_food(&mut level), Some(4));
    assert_eq!(level.total_food, Some(4));
}

#[test]
fn test_load_level_preserves_explicit_total_food() {
    let mut level = level_with_food(1, 1, 2, Some(9));
    assert_eq!(ensure_total_food(&mut level), None);
    assert_eq!(level.total_food, Some(9));
}

#[test]
fn derive_total_food_counts_every_kind() {
    assert_eq!(derive_total_food(&level_with_food(3, 0, 0, None)), 3);
    assert_eq!(derive_total_food(&level_with_food(0, 0, 0, None)), 0);
}

#[test]
fn stamp_difficulty_prefers_the_entry_override() {
    let mut level = level_with_food(0, 0, 0, None);
    stamp_difficulty(&mut level, &Some("hard".to_string()), "easy");
    assert_eq!(level.difficulty.as_deref(), Some("hard"));
    stamp_difficulty(&mut level, &None, "medium");
    assert_eq!(level.difficulty.as_deref(), Some("medium"));
}

#[test]
fn test_sync_metadata_with_roots_rejects_unknown_difficulty() {
    let result = resolve_difficulties(Some("legendary"));
    assert!(result.is_err());
    let error = result.expect_err("Expected unknown difficulty error");
    assert!(error.message().contains("Unknown difficulty"));
}

#[test]
fn test_sync_metadata_with_roots_normalizes_difficulty_filter() {
    assert_eq!(resolve_difficulties(Some(" EASY ")).unwrap(), vec!["easy"]);
}

#[test]
fn resolve_difficulties_defaults_and_rejects_empty() {
    assert_eq!(
        resolve_difficulties(None).unwrap(),
        vec!["easy", "medium", "hard"]
    );
    assert!(matches!(
        resolve_difficulties(Some("   ")),
        Err(DifficultyError::Empty)
    ));
}
