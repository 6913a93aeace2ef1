use vstd::prelude::*;
use vstd::string::{StrSliceExecFns, StringExecFns};
use crate::generate::str_views;
use crate::levels::{difficulty_names, same_text};
use crate::playback::{trim_text, trimmed};
use crate::text::{ascii_lowercase, to_ascii_lowercase};

verus! {

/// The depth bound the metadata sync solves levels with.
pub const SYNC_MAX_DEPTH: usize = 500;

/// What one metadata sync did.
#[derive(Debug, Clone, Copy, PartialEq, Eq, Structural)]
pub struct SyncSummary {
    /// Level files renamed.
    pub names_generated: usize,
    /// Catalogs rebuilt.
    pub toml_files_updated: usize,
    /// Playbacks of levels that were solved.
    pub playbacks_created: usize,
}

/// A difficulty filter of the metadata sync that names no known difficulty.
#[derive(Debug)]
pub enum DifficultyError {
    /// The filter is empty after trimming.
    Empty,
    /// The filter names no known difficulty.
    Unknown { raw: String },
}

impl DifficultyError {
    pub open spec fn message_spec(&self) -> Seq<char> {
        match self {
            DifficultyError::Empty => "Difficulty filter cannot be empty"@,
            DifficultyError::Unknown { raw } => "Unknown difficulty '"@ + raw@
                + "'. Expected one of: easy, medium, hard"@,
        }
    }

    pub fn message(&self) -> (r: String)
        ensures
            r@ == self.message_spec(),
    {
        match self {
            DifficultyError::Empty => String::from_str("Difficulty filter cannot be empty"),
            DifficultyError::Unknown { raw } => {
                let s = String::from_str("Unknown difficulty '");
                s.concat(raw.as_str()).concat("'. Expected one of: easy, medium, hard")
            },
        }
    }
}

/// The difficulties a metadata sync covers: all three without a filter; else the one the
/// filter names, ignoring surrounding whitespace and ASCII case.
pub fn resolve_difficulties(difficulty: Option<&str>) -> (r: Result<Vec<&'static str>, DifficultyError>)
    ensures
        match difficulty {
            None => r matches Ok(v) && str_views(v@) == difficulty_names(),
            Some(raw) => {
                let n = ascii_lowercase(trimmed(raw@));
                match r {
                    Ok(v) => v@.len() == 1 && difficulty_names().contains(n) && v@[0]@ == n,
                    Err(DifficultyError::Empty) => n.len() == 0,
                    Err(DifficultyError::Unknown { raw: x }) => n.len() > 0
                        && !difficulty_names().contains(n) && x@ == raw@,
                }
            },
        },
{
    let raw = match difficulty {
        None => {
            let mut v: Vec<&'static str> = Vec::new();
            v.push("easy");
            v.push("medium");
            v.push("hard");
            assert(str_views(v@) =~= difficulty_names());
            return Ok(v);
        },
        Some(raw) => raw,
    };
    let t = trim_text(raw);
    let n = to_ascii_lowercase(t.as_str());
    if n.as_str().unicode_len() == 0 {
        return Err(DifficultyError::Empty);
    }
    let mut v: Vec<&'static str> = Vec::new();
    if same_text(n.as_str(), "easy") {
        v.push("easy");
        assert(difficulty_names()[0] == n@);
    } else if same_text(n.as_str(), "medium") {
        v.push("medium");
        assert(difficulty_names()[1] == n@);
    } else if same_text(n.as_str(), "hard") {
        v.push("hard");
        assert(difficulty_names()[2] == n@);
    } else {
        assert(!difficulty_names().contains(n@)) by {
            if difficulty_names().contains(n@) {
                let i = choose|i: int| 0 <= i < 3 && difficulty_names()[i] == n@;
            }
        }
        return Err(DifficultyError::Unknown { raw: String::from_str(raw) });
    }
    Ok(v)
}

} // verus!
