use gsnake_levels::levels::{LevelMeta, LevelsToml};
use gsnake_levels::paths::{infer_svg_path, levels_toml_path_for, with_extension};
use gsnake_levels::toml_generator::{build_levels_toml, LevelFile};
use gsnake_levels::verify_all::{apply_outcomes, EntryOutcome};

fn meta(id: &str, file: Option<&str>, solved: Option<bool>) -> LevelMeta {
    LevelMeta {
        id: Some(id.to_string()),
        file: file.map(|f| f.to_string()),
        author: Some("gsnake".to_string()),
        solved,
        difficulty: Some("easy".to_string()),
        tags: Some(vec![]),
        description: Some("Level".to_string()),
    }
}

fn file(stem: &str, name: &str) -> LevelFile {
    LevelFile {
        stem: stem.to_string(),
        file_name: format!("{stem}.json"),
        name: name.to_string(),
    }
}

#[test]
fn test_generate_levels_toml_single_directory() {
    let catalog = build_levels_toml(
        vec![file("level_001", "Test Level One"), file("level_002", "Test Level Two")],
        "easy",
    );
    assert_eq!(catalog.level.len(), 2);
    let level1 = &catalog.level[0];
    assert_eq!(level1.id.as_deref(), Some("level_001"));
    assert_eq!(level1.file.as_deref(), Some("level_001.json"));
    assert_eq!(level1.author.as_deref(), Some("gsnake"));
    assert_eq!(level1.solved, Some(true));
    assert_eq!(level1.difficulty.as_deref(), Some("easy"));
    assert_eq!(level1.tags, Some(vec![]));
    assert_eq!(level1.description.as_deref(), Some("Test Level One"));
}

#[test]
fn test_generate_levels_toml_sorts_by_id() {
    let catalog = build_levels_toml(
        vec![file("level_003", "Level C"), file("level_001", "Level A"), file("level_002", "Level B")],
        "easy",
    );
    assert_eq!(catalog.level[0].id.as_deref(), Some("level_001"));
    assert_eq!(catalog.level[1].id.as_deref(), Some("level_002"));
    assert_eq!(catalog.level[2].id.as_deref(), Some("level_003"));
    assert_eq!(catalog.level[2].description.as_deref(), Some("Level C"));
}

#[test]
fn catalog_does_not_depend_on_scan_order() {
    let a = build_levels_toml(vec![file("b", "B"), file("a", "A"), file("c", "C")], "hard");
    let b = build_levels_toml(vec![file("c", "C"), file("b", "B"), file("a", "A")], "hard");
    let ids = |t: &LevelsToml| t.level.iter().map(|m| m.id.clone().unwrap()).collect::<Vec<_>>();
    assert_eq!(ids(&a), ids(&b));
    assert_eq!(ids(&a), vec!["a", "b", "c"]);
}

#[test]
fn test_update_solved_status_from_results() {
    let mut catalog = LevelsToml {
        level: vec![meta("level1", Some("level1.json"), Some(true)), meta("level2", Some("level2.json"), Some(true))],
    };
    assert!(catalog.set_solved_for_file("level1.json", true));
    assert!(catalog.set_solved_for_file("level2.json", false));
    assert_eq!(catalog.level[0].solved, Some(true));
    assert_eq!(catalog.level[1].solved, Some(false));
    assert!(!catalog.set_solved_for_file("level3.json", false));
    assert_eq!(catalog.level.len(), 2);
}

#[test]
fn test_run_verify_all_skips_missing_playback_without_mutating_status() {
    let mut catalog = LevelsToml {
        level: vec![
            meta("a", Some("a.json"), Some(true)),
            meta("b", Some("b.json"), Some(true)),
            meta("c", None, None),
        ],
    };
    let summary = apply_outcomes(
        &mut catalog,
        &vec![EntryOutcome::Failed, EntryOutcome::NoPlayback, EntryOutcome::NoFile],
    );
    assert_eq!(catalog.level[0].solved, Some(false));
    assert_eq!(catalog.level[1].solved, Some(true));
    assert_eq!(catalog.level[2].solved, None);
    assert!(summary.updated);
    assert!(summary.any_failed);
    let summary = apply_outcomes(&mut catalog, &vec![EntryOutcome::Passed, EntryOutcome::NoPlayback, EntryOutcome::NoFile]);
    assert_eq!(catalog.level[0].solved, Some(true));
    assert!(summary.updated && !summary.any_failed);
    let summary = apply_outcomes(&mut catalog, &vec![EntryOutcome::NoPlayback, EntryOutcome::NoPlayback, EntryOutcome::NoFile]);
    assert!(!summary.updated && !summary.any_failed);
}

#[test]
fn catalog_lives_beside_the_level() {
    assert_eq!(levels_toml_path_for("levels/easy/level_001.json"), "levels/easy/levels.toml");
    assert_eq!(levels_toml_path_for("level.json"), "levels.toml");
    assert_eq!(levels_toml_path_for("/a.json"), "/levels.toml");
    assert_eq!(levels_toml_path_for(""), "./levels.toml");
}

#[test]
fn svg_path_mirrors_playbacks_under_renders() {
    assert_eq!(infer_svg_path("playbacks/easy/level_001.json"), "renders/easy/level_001.svg");
    assert_eq!(infer_svg_path("other/level.json"), "other/level.svg");
    assert_eq!(with_extension("playbacks/easy/a.b.json", "cast"), "playbacks/easy/a.b.cast");
    assert_eq!(with_extension("dir/.hidden", "cast"), "dir/.hidden.cast");
}
