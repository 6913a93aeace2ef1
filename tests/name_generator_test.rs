use gsnake_levels::analysis::{ComplexityMetrics, LevelAnalysis, LevelMechanics, ObstaclePattern};
use gsnake_levels::name_generator::generate_name;

/// An analysis of a 10x10 level; `obstacles` out of 100 cells gives the density.
fn create_analysis(
    has_floating: bool,
    has_falling: bool,
    has_stones: bool,
    has_spikes: bool,
    pattern: ObstaclePattern,
    obstacles: usize,
    food_count: usize,
) -> LevelAnalysis {
    LevelAnalysis {
        mechanics: LevelMechanics {
            has_floating_food: has_floating,
            has_falling_food: has_falling,
            has_stones,
            has_spikes,
        },
        pattern,
        complexity: ComplexityMetrics { obstacle_count: obstacles, food_count, grid_area: 100 },
    }
}

#[test]
fn test_generate_name_with_floating_and_spikes() {
    let analysis = create_analysis(true, false, false, true, ObstaclePattern::Scattered, 10, 3);
    let mut used = Vec::new();
    let name = generate_name(&analysis, &mut used);
    assert!(name.contains("Floating"));
    assert!(name.contains("Spike"));
    assert!(used.contains(&name));
    assert_eq!(name, "Floating Spike Islands");
}

#[test]
fn test_generate_name_with_pattern() {
    let analysis = create_analysis(false, false, false, false, ObstaclePattern::VerticalWall, 10, 2);
    let mut used = Vec::new();
    let name = generate_name(&analysis, &mut used);
    assert!(name.contains("Tower"));
}

#[test]
fn test_generate_name_uniqueness() {
    let analysis = create_analysis(true, false, false, false, ObstaclePattern::Empty, 5, 2);
    let mut used = Vec::new();
    let name1 = generate_name(&analysis, &mut used);
    let name2 = generate_name(&analysis, &mut used);
    assert_ne!(name1, name2);
    assert!(used.contains(&name1));
    assert!(used.contains(&name2));
    assert_eq!(name1, "Floating");
    assert_eq!(name2, "Floating 2");
    assert_eq!(generate_name(&analysis, &mut used), "Floating 3");
}

#[test]
fn test_generate_name_with_high_density() {
    let analysis = create_analysis(false, false, false, false, ObstaclePattern::Scattered, 20, 2);
    let mut used = Vec::new();
    let name = generate_name(&analysis, &mut used);
    assert!(name.contains("Dense") || name.contains("Islands"));
    assert_eq!(name, "Islands Dense");
}

#[test]
fn test_generate_name_with_many_food() {
    let analysis = create_analysis(false, false, false, false, ObstaclePattern::Empty, 5, 8);
    let mut used = Vec::new();
    let name = generate_name(&analysis, &mut used);
    assert!(name.contains("Feast"));
}

#[test]
fn test_generate_name_simple_level() {
    let analysis = create_analysis(false, false, false, false, ObstaclePattern::Empty, 2, 1);
    let mut used = Vec::new();
    let name = generate_name(&analysis, &mut used);
    assert!(name.contains("Simple"));
}

#[test]
fn test_generate_name_all_mechanics() {
    let analysis = create_analysis(true, true, true, true, ObstaclePattern::HorizontalWall, 10, 3);
    let mut used = Vec::new();
    let name = generate_name(&analysis, &mut used);
    let word_count = name.split_whitespace().count();
    assert!(word_count <= 4);
    assert_eq!(name, "Floating Falling Stone Spike");
}

#[test]
fn test_generate_name_horizontal_wall() {
    let analysis = create_analysis(false, false, false, false, ObstaclePattern::HorizontalWall, 10, 2);
    let mut used = Vec::new();
    let name = generate_name(&analysis, &mut used);
    assert!(name.contains("Bridge"));
}

#[test]
fn maze_above_a_tenth_and_islands_need_obstacles() {
    let mut used = Vec::new();
    let maze = create_analysis(false, false, false, false, ObstaclePattern::Empty, 11, 0);
    assert_eq!(generate_name(&maze, &mut used), "Maze");
    let exactly_a_tenth = create_analysis(false, false, false, false, ObstaclePattern::Empty, 10, 0);
    assert_eq!(generate_name(&exactly_a_tenth, &mut used), "Simple");
    let none = create_analysis(false, false, false, false, ObstaclePattern::Scattered, 0, 0);
    assert_eq!(generate_name(&none, &mut used), "Simple 2");
    let dense_edge = create_analysis(false, false, false, false, ObstaclePattern::Empty, 15, 9);
    assert_eq!(generate_name(&dense_edge, &mut used), "Feast");
}

#[test]
fn counter_skips_taken_numbers() {
    let analysis = create_analysis(false, false, false, false, ObstaclePattern::VerticalWall, 10, 0);
    let mut used = vec!["Tower".to_string(), "Tower 2".to_string(), "Tower 4".to_string()];
    assert_eq!(generate_name(&analysis, &mut used), "Tower 3");
    assert_eq!(used.len(), 4);
}
