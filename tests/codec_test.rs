use gsnake_levels::model::Direction;
use gsnake_levels::playback::{
    direction_for_word, direction_name, parse_key, parse_playback_keys, PlaybackError,
};

fn keys(k: &[&str]) -> Vec<String> {
    k.iter().map(|s| s.to_string()).collect()
}

#[test]
fn test_load_playback_directions_valid_file() {
    let directions = parse_playback_keys(&keys(&["Right", "Down", "Left", "Up"])).unwrap();
    assert_eq!(directions.len(), 4);
    assert_eq!(directions[0], Direction::East);
    assert_eq!(directions[1], Direction::South);
    assert_eq!(directions[2], Direction::West);
    assert_eq!(directions[3], Direction::North);
}

#[test]
fn test_load_playback_directions_empty_array() {
    let result = parse_playback_keys(&keys(&[]));
    assert!(matches!(result, Err(PlaybackError::Empty)));
}

#[test]
fn test_load_playback_directions_short_keys() {
    let directions = parse_playback_keys(&keys(&["R", "D", "L", "U"])).unwrap();
    assert_eq!(
        directions,
        vec![Direction::East, Direction::South, Direction::West, Direction::North]
    );
}

#[test]
fn test_load_playback_directions_long_keys() {
    let directions = parse_playback_keys(&keys(&["east", "south", "west", "north"])).unwrap();
    assert_eq!(
        directions,
        vec![Direction::East, Direction::South, Direction::West, Direction::North]
    );
}

#[test]
fn test_load_playback_directions_invalid_key() {
    let result = parse_playback_keys(&keys(&["invalid"]));
    match result {
        Err(PlaybackError::InvalidKey { step, key }) => {
            assert_eq!(step, 1);
            assert_eq!(key, "invalid");
        },
        other => panic!("unexpected {other:?}"),
    }
}

#[test]
fn test_load_playback_directions_invalid_key_reports_step_context() {
    let result = parse_playback_keys(&keys(&["Up", "X"]));
    match result {
        Err(PlaybackError::InvalidKey { step, key }) => {
            assert_eq!(step, 2);
            assert_eq!(key, "X");
        },
        other => panic!("unexpected {other:?}"),
    }
}

#[test]
fn every_accepted_spelling_maps_to_its_direction() {
    for (key, dir) in [
        ("R", Direction::East),
        ("D", Direction::South),
        ("L", Direction::West),
        ("U", Direction::North),
        ("Right", Direction::East),
        ("Down", Direction::South),
        ("Left", Direction::West),
        ("Up", Direction::North),
        ("right", Direction::East),
        ("down", Direction::South),
        ("left", Direction::West),
        ("up", Direction::North),
        ("East", Direction::East),
        ("SOUTH", Direction::South),
        ("  west ", Direction::West),
        ("North", Direction::North),
    ] {
        assert_eq!(parse_key(key).unwrap(), dir, "key {key:?}");
    }
    assert!(parse_key("X").is_err());
    assert!(parse_key(" R").is_err());
    assert!(parse_key("r").is_err());
    assert!(parse_key("").is_err());
    assert_eq!(direction_for_word("up"), Some(Direction::North));
    assert_eq!(direction_for_word("Up"), None);
}

#[test]
fn direction_names_round_trip_through_the_codec() {
    for dir in [Direction::North, Direction::South, Direction::East, Direction::West] {
        assert_eq!(parse_key(direction_name(dir)).unwrap(), dir);
    }
    assert_eq!(direction_name(Direction::North), "Up");
    assert_eq!(direction_name(Direction::West), "Left");
}
