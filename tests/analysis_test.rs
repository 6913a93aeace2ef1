use gsnake_levels::analysis::{
    analyze_level, calculate_complexity, detect_mechanics, detect_obstacle_pattern, ObstaclePattern,
};
use gsnake_levels::model::{Direction, GridSize, Level, Position};

fn create_test_level(
    obstacles: Vec<Position>,
    floating_food: Vec<Position>,
    falling_food: Vec<Position>,
    stones: Vec<Position>,
    spikes: Vec<Position>,
    grid_size: GridSize,
) -> Level {
    Level {
        id: 1,
        name: "Test Level".to_string(),
        difficulty: Some("easy".to_string()),
        grid_size,
        snake: vec![Position::new(0, 0)],
        obstacles,
        food: vec![],
        exit: Position::new(5, 5),
        snake_direction: Direction::East,
        floating_food,
        falling_food,
        stones,
        spikes,
        exit_is_solid: Some(true),
        total_food: Some(0),
    }
}

#[test]
fn test_detect_mechanics_all_present() {
    let level = create_test_level(
        vec![],
        vec![Position::new(1, 1)],
        vec![Position::new(2, 2)],
        vec![Position::new(3, 3)],
        vec![Position::new(4, 4)],
        GridSize::new(10, 10),
    );
    let mechanics = detect_mechanics(&level);
    assert!(mechanics.has_floating_food);
    assert!(mechanics.has_falling_food);
    assert!(mechanics.has_stones);
    assert!(mechanics.has_spikes);
}

#[test]
fn test_detect_mechanics_none_present() {
    let level = create_test_level(vec![], vec![], vec![], vec![], vec![], GridSize::new(10, 10));
    let mechanics = detect_mechanics(&level);
    assert!(!mechanics.has_floating_food);
    assert!(!mechanics.has_falling_food);
    assert!(!mechanics.has_stones);
    assert!(!mechanics.has_spikes);
}

#[test]
fn test_detect_mechanics_partial() {
    let level = create_test_level(
        vec![],
        vec![Position::new(1, 1)],
        vec![],
        vec![],
        vec![Position::new(4, 4)],
        GridSize::new(10, 10),
    );
    let mechanics = detect_mechanics(&level);
    assert!(mechanics.has_floating_food);
    assert!(!mechanics.has_falling_food);
    assert!(!mechanics.has_stones);
    assert!(mechanics.has_spikes);
}

#[test]
fn test_detect_vertical_wall_pattern() {
    let obstacles = vec![
        Position::new(5, 0),
        Position::new(5, 1),
        Position::new(5, 2),
        Position::new(5, 3),
        Position::new(5, 4),
        Position::new(5, 5),
        Position::new(5, 6),
        Position::new(5, 7),
        Position::new(2, 2),
        Position::new(8, 3),
    ];
    assert_eq!(detect_obstacle_pattern(&obstacles), ObstaclePattern::VerticalWall);
}

#[test]
fn test_detect_horizontal_wall_pattern() {
    let obstacles = vec![
        Position::new(0, 3),
        Position::new(1, 3),
        Position::new(2, 3),
        Position::new(3, 3),
        Position::new(4, 3),
        Position::new(5, 3),
        Position::new(6, 3),
        Position::new(7, 3),
        Position::new(2, 1),
        Position::new(4, 5),
    ];
    assert_eq!(detect_obstacle_pattern(&obstacles), ObstaclePattern::HorizontalWall);
}

#[test]
fn test_detect_scattered_pattern() {
    let obstacles = vec![
        Position::new(1, 1),
        Position::new(3, 2),
        Position::new(5, 4),
        Position::new(2, 6),
        Position::new(8, 3),
        Position::new(4, 8),
    ];
    assert_eq!(detect_obstacle_pattern(&obstacles), ObstaclePattern::Scattered);
}

#[test]
fn test_detect_no_obstacles() {
    let obstacles = vec![];
    assert_eq!(detect_obstacle_pattern(&obstacles), ObstaclePattern::Empty);
}

#[test]
fn wall_threshold_truncates_and_vertical_wins_ties() {
    // Four obstacles: the threshold is 4 * 4 / 10 = 1, so any column qualifies.
    let obstacles = vec![
        Position::new(0, 0),
        Position::new(1, 1),
        Position::new(2, 2),
        Position::new(3, 3),
    ];
    assert_eq!(detect_obstacle_pattern(&obstacles), ObstaclePattern::VerticalWall);
    // Ten obstacles, threshold 4: three in a column and three in a row are not enough.
    let obstacles = vec![
        Position::new(0, 0),
        Position::new(0, 1),
        Position::new(0, 2),
        Position::new(1, 5),
        Position::new(2, 5),
        Position::new(3, 5),
        Position::new(4, 7),
        Position::new(5, 8),
        Position::new(6, 9),
        Position::new(7, 4),
    ];
    assert_eq!(detect_obstacle_pattern(&obstacles), ObstaclePattern::Scattered);
}

#[test]
fn test_calculate_complexity() {
    let obstacles = vec![Position::new(0, 0), Position::new(1, 1), Position::new(2, 2)];
    let level = create_test_level(
        obstacles,
        vec![Position::new(3, 3)],
        vec![Position::new(4, 4)],
        vec![],
        vec![],
        GridSize::new(10, 10),
    );
    let complexity = calculate_complexity(&level);
    assert_eq!(complexity.grid_area, 100);
    assert_eq!(complexity.food_count, 2);
    assert_eq!(complexity.obstacle_count as f64 / complexity.grid_area as f64, 0.03);
}

#[test]
fn test_calculate_complexity_high_density() {
    let mut obstacles = vec![];
    for i in 0..25 {
        obstacles.push(Position::new(i % 5, i / 5));
    }
    let level = create_test_level(obstacles, vec![], vec![], vec![], vec![], GridSize::new(10, 10));
    let complexity = calculate_complexity(&level);
    assert_eq!(complexity.grid_area, 100);
    assert_eq!(complexity.obstacle_count as f64 / complexity.grid_area as f64, 0.25);
}

#[test]
fn test_analyze_level_complete() {
    let obstacles = vec![
        Position::new(5, 0),
        Position::new(5, 1),
        Position::new(5, 2),
        Position::new(5, 3),
        Position::new(5, 4),
    ];
    let level = create_test_level(
        obstacles,
        vec![Position::new(1, 1)],
        vec![],
        vec![],
        vec![Position::new(8, 8)],
        GridSize::new(10, 10),
    );
    let analysis = analyze_level(&level);
    assert!(analysis.mechanics.has_floating_food);
    assert!(!analysis.mechanics.has_falling_food);
    assert!(!analysis.mechanics.has_stones);
    assert!(analysis.mechanics.has_spikes);
    assert_eq!(analysis.pattern, ObstaclePattern::VerticalWall);
    assert_eq!(analysis.complexity.grid_area, 100);
    assert_eq!(analysis.complexity.food_count, 1);
    assert_eq!(
        analysis.complexity.obstacle_count as f64 / analysis.complexity.grid_area as f64,
        0.05
    );
}
