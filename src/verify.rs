use vstd::prelude::*;
use crate::model::GameStatus;

verus! {

/// Why a playback does not verify.
#[derive(Debug, Clone, Copy, PartialEq, Eq, Structural)]
pub enum VerifyError {
    /// The playback ends the game.
    GameOver,
    /// The recorded moves ran out before the level was completed.
    Incomplete,
}

impl VerifyError {
    pub fn message(self) -> (r: &'static str)
        ensures
            r@ == match self {
                VerifyError::GameOver => "Playback resulted in Game Over"@,
                VerifyError::Incomplete => "Playback did not complete the level"@,
            },
    {
        match self {
            VerifyError::GameOver => "Playback resulted in Game Over",
            VerifyError::Incomplete => "Playback did not complete the level",
        }
    }
}

/// Whether a replay applies the next recorded move: only while the game is still playing;
/// moves recorded past the end of the game are ignored.
pub fn replay_continues(status: GameStatus) -> (r: bool)
    ensures
        r == (status == GameStatus::Playing),
{
    status == GameStatus::Playing
}

pub open spec fn outcome_of(status: GameStatus) -> Result<(), VerifyError> {
    match status {
        GameStatus::LevelComplete | GameStatus::AllComplete => Ok(()),
        GameStatus::GameOver => Err(VerifyError::GameOver),
        GameStatus::Playing => Err(VerifyError::Incomplete),
    }
}

/// The verdict on a playback from the status the replay ended in: a completed level passes.
pub fn playback_outcome(status: GameStatus) -> (r: Result<(), VerifyError>)
    ensures
        r == outcome_of(status),
{
    match status {
        GameStatus::LevelComplete | GameStatus::AllComplete => Ok(()),
        GameStatus::GameOver => Err(VerifyError::GameOver),
        GameStatus::Playing => Err(VerifyError::Incomplete),
    }
}

/// The verdict is a function of the final status alone: two replays that end in the same
/// status get the same verdict, and only a completed level passes. Whether two replays of
/// one playback end in the same status is up to the engine.
pub proof fn lemma_verdict_follows_final_status(first: GameStatus, second: GameStatus)
    requires
        first == second,
    ensures
        outcome_of(first) == outcome_of(second),
        outcome_of(first) is Ok <==> (first == GameStatus::LevelComplete || first
            == GameStatus::AllComplete),
{
}

} // verus!
