use gsnake_levels::paths::select_level_files;
use gsnake_levels::playback_generator::{
    count_solved, generate_playback_for_level, get_solved_unsolved_lists, PlaybackResult,
};

fn result(id: &str, solved: bool, error: Option<&str>) -> PlaybackResult {
    PlaybackResult {
        level_id: id.to_string(),
        level_path: format!("{id}.json"),
        playback_path: format!("{id}-playback.json"),
        solved,
        error: error.map(|e| e.to_string()),
    }
}

#[test]
fn test_get_solved_unsolved_lists() {
    let results = vec![
        result("level1", true, None),
        result("level2", false, Some("No solution found")),
        result("level3", true, None),
    ];
    let (solved, unsolved) = get_solved_unsolved_lists(&results);
    assert_eq!(solved.len(), 2);
    assert_eq!(unsolved.len(), 1);
    assert!(solved.contains(&"level1".to_string()));
    assert!(solved.contains(&"level3".to_string()));
    assert!(unsolved.contains(&"level2".to_string()));
}

#[test]
fn test_get_solved_unsolved_lists_empty() {
    let results = vec![];
    let (solved, unsolved) = get_solved_unsolved_lists(&results);
    assert_eq!(solved.len(), 0);
    assert_eq!(unsolved.len(), 0);
}

#[test]
fn test_get_solved_unsolved_lists_all_solved() {
    let results = vec![result("level1", true, None), result("level2", true, None)];
    let (solved, unsolved) = get_solved_unsolved_lists(&results);
    assert_eq!(solved.len(), 2);
    assert_eq!(unsolved.len(), 0);
}

#[test]
fn test_get_solved_unsolved_lists_all_unsolved() {
    let results = vec![
        result("level1", false, Some("No solution")),
        result("level2", false, Some("Too complex")),
    ];
    let (solved, unsolved) = get_solved_unsolved_lists(&results);
    assert_eq!(solved.len(), 0);
    assert_eq!(unsolved.len(), 2);
}

#[test]
fn solved_unsolved_lists_keep_input_order() {
    let results = vec![
        result("c", true, None),
        result("a", false, Some("x")),
        result("b", true, None),
    ];
    let (solved, unsolved) = get_solved_unsolved_lists(&results);
    assert_eq!(solved, vec!["c".to_string(), "b".to_string()]);
    assert_eq!(unsolved, vec!["a".to_string()]);
    assert_eq!(count_solved(&results), 2);
}

#[test]
fn generate_playback_for_level_records_the_outcome() {
    let ok = generate_playback_for_level("levels/easy/level_001.json", "p/level_001.json", Ok(7)).unwrap();
    assert_eq!(ok.level_id, "level_001");
    assert!(ok.solved);
    assert!(ok.error.is_none());
    let failed = generate_playback_for_level(
        "levels/easy/broken_level.json",
        "p/broken_level.json",
        Err("Failed to parse level JSON".to_string()),
    )
    .unwrap();
    assert!(!failed.solved);
    assert!(failed.error.unwrap().contains("Failed to parse level JSON"));
    assert!(generate_playback_for_level("/", "p.json", Ok(1)).is_err());
}

#[test]
fn select_level_files_keeps_sorted_json_files() {
    let paths = vec![
        "easy/b.json".to_string(),
        "easy/readme.txt".to_string(),
        "easy/a.json".to_string(),
        "easy/.json".to_string(),
        "easy/c.json.bak".to_string(),
    ];
    assert_eq!(
        select_level_files(paths),
        vec!["easy/a.json".to_string(), "easy/b.json".to_string()]
    );
    assert!(select_level_files(vec!["levels/readme.txt".to_string()]).is_empty());
}

#[test]
fn test_update_solved_status_from_results_empty() {
    let results = vec![];
    let updates = gsnake_levels::playback_generator::update_solved_status_from_results(&results);
    assert!(updates.is_empty());
}

#[test]
fn solved_updates_target_the_sibling_catalog() {
    let results = vec![result("levels/easy/level1", true, None), result("level2", false, Some("x"))];
    let updates = gsnake_levels::playback_generator::update_solved_status_from_results(&results);
    assert_eq!(updates[0].catalog_path, "levels/easy/levels.toml");
    assert_eq!(updates[0].file_name.as_deref(), Some("level1.json"));
    assert!(updates[0].solved);
    assert_eq!(updates[1].catalog_path, "levels.toml");
    assert!(!updates[1].solved);
}
