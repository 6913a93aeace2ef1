use vstd::prelude::*;
use vstd::string::StringExecFns;
use crate::paths::{catalog_path_of, file_name, file_name_of, file_stem, levels_toml_path_for, path_components, stem_of};

verus! {

/// The outcome of generating the playback of one level.
#[derive(Debug)]
pub struct PlaybackResult {
    /// The level file's stem.
    pub level_id: String,
    pub level_path: String,
    pub playback_path: String,
    pub solved: bool,
    /// Why the level was not solved, when it was not.
    pub error: Option<String>,
}

/// A level path with no file name, so no level id.
#[derive(Debug)]
pub struct InvalidLevelFilename {
    pub path: String,
}

/// The result for a level whose playback generation (solving and writing the playback file)
/// ended with `outcome`: the number of moves written, or the error's text. The level id is
/// the file stem of the level path.
pub fn generate_playback_for_level(level_path: &str, playback_path: &str, outcome: Result<usize, String>) -> (r: Result<
    PlaybackResult,
    InvalidLevelFilename,
>)
    ensures
        match r {
            Ok(res) => file_name_of(path_components(level_path@)) matches Some(f) && res.level_id@
                == stem_of(f) && res.level_path@ == level_path@ && res.playback_path@
                == playback_path@ && res.solved == (outcome is Ok) && match outcome {
                Ok(_) => res.error is None,
                Err(e) => res.error == Some(e),
            },
            Err(e) => file_name_of(path_components(level_path@)) is None && e.path@ == level_path@,
        },
{
    let level_id = match file_stem(level_path) {
        Some(s) => s,
        None => {
            return Err(InvalidLevelFilename { path: String::from_str(level_path) });
        },
    };
    let (solved, error) = match outcome {
        Ok(_) => (true, None),
        Err(e) => (false, Some(e)),
    };
    Ok(
        PlaybackResult {
            level_id,
            level_path: String::from_str(level_path),
            playback_path: String::from_str(playback_path),
            solved,
            error,
        },
    )
}

pub open spec fn solved_ids(results: Seq<PlaybackResult>) -> Seq<Seq<char>>
    decreases results.len(),
{
    if results.len() == 0 {
        Seq::empty()
    } else {
        let rest = solved_ids(results.drop_last());
        if results.last().solved {
            rest.push(results.last().level_id@)
        } else {
            rest
        }
    }
}

pub open spec fn unsolved_ids(results: Seq<PlaybackResult>) -> Seq<Seq<char>>
    decreases results.len(),
{
    if results.len() == 0 {
        Seq::empty()
    } else {
        let rest = unsolved_ids(results.drop_last());
        if !results.last().solved {
            rest.push(results.last().level_id@)
        } else {
            rest
        }
    }
}

/// The ids of the solved and of the unsolved levels, each in the order of the results.
pub fn get_solved_unsolved_lists(results: &Vec<PlaybackResult>) -> (r: (Vec<String>, Vec<String>))
    ensures
        r.0.deep_view() == solved_ids(results@),
        r.1.deep_view() == unsolved_ids(results@),
{
    let mut solved: Vec<String> = Vec::new();
    let mut unsolved: Vec<String> = Vec::new();
    let n = results.len();
    let mut i: usize = 0;
    while i < n
        invariant
            n == results.len(),
            i <= n,
            solved.deep_view() == solved_ids(results@.subrange(0, i as int)),
            unsolved.deep_view() == unsolved_ids(results@.subrange(0, i as int)),
        decreases n - i,
    {
        proof {
            assert(results@.subrange(0, i as int + 1).drop_last() =~= results@.subrange(0, i as int));
        }
        let res = &results[i];
        if res.solved {
            let ghost before = solved.deep_view();
            solved.push(res.level_id.clone());
            assert(solved.deep_view() =~= before.push(res.level_id@));
        } else {
            let ghost before = unsolved.deep_view();
            unsolved.push(res.level_id.clone());
            assert(unsolved.deep_view() =~= before.push(res.level_id@));
        }
        i = i + 1;
    }
    assert(results@.subrange(0, n as int) =~= results@);
    (solved, unsolved)
}

/// How many of the results are solved.
pub open spec fn solved_count(results: Seq<PlaybackResult>) -> nat
    decreases results.len(),
{
    if results.len() == 0 {
        0
    } else {
        solved_count(results.drop_last()) + if results.last().solved {
            1nat
        } else {
            0nat
        }
    }
}

/// The number of levels that were solved.
pub fn count_solved(results: &Vec<PlaybackResult>) -> (r: usize)
    ensures
        r == solved_count(results@),
{
    let n = results.len();
    let mut c: usize = 0;
    let mut i: usize = 0;
    while i < n
        invariant
            n == results.len(),
            i <= n,
            c <= i,
            c == solved_count(results@.subrange(0, i as int)),
        decreases n - i,
    {
        proof {
            assert(results@.subrange(0, i as int + 1).drop_last() =~= results@.subrange(0, i as int));
        }
        if results[i].solved {
            c = c + 1;
        }
        i = i + 1;
    }
    assert(results@.subrange(0, n as int) =~= results@);
    c
}

/// A solved flag to write: the level file `file_name` in the catalog at `catalog_path`.
#[derive(Debug)]
pub struct SolvedUpdate {
    pub level_id: String,
    pub catalog_path: String,
    /// The level path's file name; a path without one cannot be looked up.
    pub file_name: Option<String>,
    pub solved: bool,
}

/// The catalog updates that record each result's outcome, in order: each level's solved flag
/// goes to the catalog beside its level file.
pub fn update_solved_status_from_results(results: &Vec<PlaybackResult>) -> (r: Vec<SolvedUpdate>)
    ensures
        r.len() == results.len(),
        forall|i: int|
            0 <= i < r.len() ==> {
                let u = #[trigger] r[i];
                let res = results[i];
                &&& u.level_id@ == res.level_id@
                &&& u.catalog_path@ == catalog_path_of(res.level_path@)
                &&& u.solved == res.solved
                &&& match u.file_name {
                    Some(f) => file_name_of(path_components(res.level_path@)) == Some(f@),
                    None => file_name_of(path_components(res.level_path@)) is None,
                }
            },
{
    let mut out: Vec<SolvedUpdate> = Vec::new();
    let n = results.len();
    let mut i: usize = 0;
    while i < n
        invariant
            n == results.len(),
            i <= n,
            out.len() == i,
            forall|k: int|
                0 <= k < i ==> {
                    let u = #[trigger] out[k];
                    let res = results[k];
                    &&& u.level_id@ == res.level_id@
                    &&& u.catalog_path@ == catalog_path_of(res.level_path@)
                    &&& u.solved == res.solved
                    &&& match u.file_name {
                        Some(f) => file_name_of(path_components(res.level_path@)) == Some(f@),
                        None => file_name_of(path_components(res.level_path@)) is None,
                    }
                },
        decreases n - i,
    {
        let res = &results[i];
        let u = SolvedUpdate {
            level_id: res.level_id.clone(),
            catalog_path: levels_toml_path_for(res.level_path.as_str()),
            file_name: file_name(res.level_path.as_str()),
            solved: res.solved,
        };
        out.push(u);
        i = i + 1;
    }
    out
}

} // verus!
