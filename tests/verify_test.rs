use gsnake_levels::model::GameStatus;
use gsnake_levels::paths::{infer_playback_path, resolve_playback_path, PathError};
use gsnake_levels::verify::{playback_outcome, replay_continues, VerifyError};
use std::path::PathBuf;

fn resolve(level: &str, override_path: Option<String>) -> Result<String, PathError> {
    resolve_playback_path(level, override_path)
}

#[test]
fn test_resolve_playback_path_valid_easy_level() {
    let result = resolve("levels/easy/level_001.json", None);
    assert!(result.is_ok());
    assert_eq!(
        PathBuf::from(result.unwrap()),
        PathBuf::from("playbacks/easy/level_001.json")
    );
}

#[test]
fn test_resolve_playback_path_valid_medium_level() {
    let result = resolve("levels/medium/level_005.json", None);
    assert!(result.is_ok());
    assert_eq!(
        PathBuf::from(result.unwrap()),
        PathBuf::from("playbacks/medium/level_005.json")
    );
}

#[test]
fn test_resolve_playback_path_valid_hard_level() {
    let result = resolve("levels/hard/level_010.json", None);
    assert!(result.is_ok());
    assert_eq!(
        PathBuf::from(result.unwrap()),
        PathBuf::from("playbacks/hard/level_010.json")
    );
}

#[test]
fn test_resolve_playback_path_with_override() {
    let override_path = "custom/path/to/playback.json".to_string();
    let result = resolve("levels/easy/level_001.json", Some(override_path.clone()));
    assert!(result.is_ok());
    assert_eq!(result.unwrap(), override_path);
}

#[test]
fn test_resolve_playback_path_missing_levels_directory() {
    let result = resolve("invalid/easy/level_001.json", None);
    assert!(result.is_err());
    assert!(matches!(
        result.unwrap_err(),
        PathError::NoLevelsComponent { .. }
    ));
}

#[test]
fn test_resolve_playback_path_no_levels_component() {
    let result = resolve("some/other/path/file.json", None);
    assert!(result.is_err());
    match result.unwrap_err() {
        PathError::NoLevelsComponent { path } => assert_eq!(path, "some/other/path/file.json"),
        other => panic!("unexpected error {other:?}"),
    }
}

#[test]
fn test_resolve_playback_path_absolute_path() {
    let result = resolve("/absolute/path/levels/easy/level_001.json", None);
    assert!(result.is_ok());
    assert_eq!(
        PathBuf::from(result.unwrap()),
        PathBuf::from("/absolute/path/playbacks/easy/level_001.json")
    );
}

#[test]
fn test_resolve_playback_path_nested_levels() {
    let result = resolve("some/nested/levels/easy/level_001.json", None);
    assert!(result.is_ok());
    assert_eq!(
        PathBuf::from(result.unwrap()),
        PathBuf::from("some/nested/playbacks/easy/level_001.json")
    );
}

#[test]
fn resolve_playback_path_replaces_only_the_first_levels_component() {
    assert_eq!(
        resolve("levels/levels/a.json", None).unwrap(),
        "playbacks/levels/a.json"
    );
    assert_eq!(
        resolve("./x//levels/./a.json", None).unwrap(),
        "./x/playbacks/a.json"
    );
}

#[test]
fn test_infer_playback_path_fails_when_level_outside_root() {
    let error = infer_playback_path("/tmp/t/levels", "/tmp/t/outside/level.json").unwrap_err();
    assert!(matches!(error, PathError::NotUnderRoot { .. }));
}

#[test]
fn infer_playback_path_mirrors_under_sibling_playbacks() {
    assert_eq!(
        infer_playback_path("/tmp/t/levels", "/tmp/t/levels/easy/level.json").unwrap(),
        "/tmp/t/playbacks/easy/level.json"
    );
    assert_eq!(
        infer_playback_path("levels", "levels/hard/x.json").unwrap(),
        "playbacks/hard/x.json"
    );
}

#[test]
fn replay_stops_once_the_game_is_over() {
    assert!(replay_continues(GameStatus::Playing));
    assert!(!replay_continues(GameStatus::GameOver));
    assert!(!replay_continues(GameStatus::LevelComplete));
}

#[test]
fn playback_outcome_follows_the_final_status() {
    assert_eq!(playback_outcome(GameStatus::LevelComplete), Ok(()));
    assert_eq!(playback_outcome(GameStatus::AllComplete), Ok(()));
    assert_eq!(playback_outcome(GameStatus::GameOver), Err(VerifyError::GameOver));
    assert_eq!(playback_outcome(GameStatus::Playing), Err(VerifyError::Incomplete));
    assert!(VerifyError::GameOver.message().contains("Playback resulted in Game Over"));
    assert!(VerifyError::Incomplete
        .message()
        .contains("Playback did not complete the level"));
}
