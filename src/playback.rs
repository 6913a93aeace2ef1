use vstd::prelude::*;
use vstd::string::StringExecFns;
use crate::levels::same_text;
use crate::model::Direction;

verus! {

/// What `str::trim` returns for a string.
pub uninterp spec fn trimmed(s: Seq<char>) -> Seq<char>;

/// What `str::to_lowercase` returns for a string.
pub uninterp spec fn lowercased(s: Seq<char>) -> Seq<char>;

/// Relies on `str::trim`: leading and trailing whitespace removed, a function of the text alone.
#[verifier::external_body]
pub(crate) fn trim_text(s: &str) -> (r: String)
    ensures
        r@ == trimmed(s@),
{
    s.trim().to_string()
}

/// Relies on `str::to_lowercase`: the lowercase mapping of every character, a function of the
/// text alone.
#[verifier::external_body]
pub(crate) fn lowercase_text(s: &str) -> (r: String)
    ensures
        r@ == lowercased(s@),
{
    s.to_lowercase()
}

/// The direction of a one-letter key: `R`, `D`, `L`, `U`.
pub open spec fn letter_direction(k: Seq<char>) -> Option<Direction> {
    if k == "R"@ {
        Some(Direction::East)
    } else if k == "D"@ {
        Some(Direction::South)
    } else if k == "L"@ {
        Some(Direction::West)
    } else if k == "U"@ {
        Some(Direction::North)
    } else {
        None
    }
}

/// The direction of a normalized (trimmed, lowercase) key word.
pub open spec fn word_direction(w: Seq<char>) -> Option<Direction> {
    if w == "right"@ || w == "east"@ {
        Some(Direction::East)
    } else if w == "down"@ || w == "south"@ {
        Some(Direction::South)
    } else if w == "left"@ || w == "west"@ {
        Some(Direction::West)
    } else if w == "up"@ || w == "north"@ {
        Some(Direction::North)
    } else {
        None
    }
}

/// The direction a playback key stands for: a one-letter key first, else the key trimmed and
/// lowercased as a word.
pub open spec fn key_direction(k: Seq<char>) -> Option<Direction> {
    match letter_direction(k) {
        Some(d) => Some(d),
        None => word_direction(lowercased(trimmed(k))),
    }
}

/// A playback step whose key names no direction.
#[derive(Debug)]
pub struct KeyError {
    pub key: String,
}

/// Why a playback could not be read as directions.
#[derive(Debug)]
pub enum PlaybackError {
    /// The playback has no steps.
    Empty,
    /// The step at 1-based position `step` has a key that names no direction.
    InvalidKey { step: usize, key: String },
}

/// The direction of a normalized key word, if it names one.
pub fn direction_for_word(word: &str) -> (r: Option<Direction>)
    ensures
        r == word_direction(word@),
{
    if same_text(word, "right") || same_text(word, "east") {
        Some(Direction::East)
    } else if same_text(word, "down") || same_text(word, "south") {
        Some(Direction::South)
    } else if same_text(word, "left") || same_text(word, "west") {
        Some(Direction::West)
    } else if same_text(word, "up") || same_text(word, "north") {
        Some(Direction::North)
    } else {
        None
    }
}

/// Reads one playback key: `R`/`D`/`L`/`U`, or a direction word in any case and surrounded by
/// any whitespace (`right`/`east`, `down`/`south`, `left`/`west`, `up`/`north`).
pub fn parse_key(key: &str) -> (r: Result<Direction, KeyError>)
    ensures
        match r {
            Ok(d) => key_direction(key@) == Some(d),
            Err(e) => key_direction(key@) is None && e.key@ == key@,
        },
{
    if same_text(key, "R") {
        return Ok(Direction::East);
    } else if same_text(key, "D") {
        return Ok(Direction::South);
    } else if same_text(key, "L") {
        return Ok(Direction::West);
    } else if same_text(key, "U") {
        return Ok(Direction::North);
    }
    let t = trim_text(key);
    let normalized = lowercase_text(t.as_str());
    match direction_for_word(normalized.as_str()) {
        Some(d) => Ok(d),
        None => Err(KeyError { key: String::from_str(key) }),
    }
}

/// The directions of every step of a playback, given the steps' keys in order.
pub fn parse_playback_keys(keys: &Vec<String>) -> (r: Result<Vec<Direction>, PlaybackError>)
    ensures
        match r {
            Ok(dirs) => keys.len() > 0 && dirs.len() == keys.len() && forall|i: int|
                0 <= i < keys.len() ==> key_direction(#[trigger] keys[i]@) == Some(dirs[i]),
            Err(PlaybackError::Empty) => keys.len() == 0,
            Err(PlaybackError::InvalidKey { step, key }) => 1 <= step <= keys.len() && key@ == keys[step
                - 1]@ && key_direction(key@) is None && forall|i: int|
                0 <= i < step - 1 ==> key_direction(#[trigger] keys[i]@) is Some,
        },
{
    let n = keys.len();
    if n == 0 {
        return Err(PlaybackError::Empty);
    }
    let mut dirs: Vec<Direction> = Vec::new();
    let mut i: usize = 0;
    while i < n
        invariant
            n == keys.len(),
            i <= n,
            dirs.len() == i,
            forall|k: int| 0 <= k < i ==> key_direction(#[trigger] keys[k]@) == Some(dirs[k]),
        decreases n - i,
    {
        match parse_key(keys[i].as_str()) {
            Ok(d) => dirs.push(d),
            Err(e) => {
                return Err(PlaybackError::InvalidKey { step: i + 1, key: e.key });
            },
        }
        i = i + 1;
    }
    Ok(dirs)
}

/// The key name written for a direction in generated playbacks.
pub fn direction_name(d: Direction) -> (r: &'static str)
    ensures
        r@ == match d {
            Direction::North => "Up"@,
            Direction::South => "Down"@,
            Direction::East => "Right"@,
            Direction::West => "Left"@,
        },
{
    match d {
        Direction::North => "Up",
        Direction::South => "Down",
        Direction::East => "Right",
        Direction::West => "Left",
    }
}

/// Every key spelling that the codec accepts names its expected direction: the one-letter keys,
/// the key names that generated playbacks use, and the direction words (after trimming and
/// lowercasing).
pub proof fn lemma_key_spellings()
    ensures
        key_direction("R"@) == Some(Direction::East),
        key_direction("D"@) == Some(Direction::South),
        key_direction("L"@) == Some(Direction::West),
        key_direction("U"@) == Some(Direction::North),
        word_direction("right"@) == Some(Direction::East),
        word_direction("east"@) == Some(Direction::East),
        word_direction("down"@) == Some(Direction::South),
        word_direction("south"@) == Some(Direction::South),
        word_direction("left"@) == Some(Direction::West),
        word_direction("west"@) == Some(Direction::West),
        word_direction("up"@) == Some(Direction::North),
        word_direction("north"@) == Some(Direction::North),
        forall|k: Seq<char>| letter_direction(k) is None ==> key_direction(k) == word_direction(lowercased(trimmed(k))),
{
    reveal_strlit("R");
    reveal_strlit("D");
    reveal_strlit("L");
    reveal_strlit("U");
    reveal_strlit("right");
    reveal_strlit("east");
    reveal_strlit("down");
    reveal_strlit("south");
    reveal_strlit("left");
    reveal_strlit("west");
    reveal_strlit("up");
    reveal_strlit("north");
    assert("R"@[0] == 'R' && "D"@[0] == 'D' && "L"@[0] == 'L' && "U"@[0] == 'U');
    assert("right"@[0] == 'r' && "east"@[0] == 'e' && "down"@[0] == 'd' && "south"@[0] == 's');
    assert("left"@[0] == 'l' && "west"@[0] == 'w' && "up"@[0] == 'u' && "north"@[0] == 'n');
}

} // verus!
