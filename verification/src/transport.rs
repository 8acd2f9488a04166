//! Playback transport decisions: what the player does with the audio
//! output on toggle, seek and the periodic sync, given what the output
//! reports.
use vstd::prelude::*;

verus! {

/// Whether the output should play or pause.
#[derive(Clone, Copy, Debug, PartialEq, Eq)]
pub enum Playback {
    Play,
    Pause,
}

/// Play/pause toggling: a paused output plays, a playing one pauses.
pub fn toggle_action(paused: bool) -> (r: Playback)
    ensures
        r == if paused {
            Playback::Play
        } else {
            Playback::Pause
        },
{
    if paused {
        Playback::Play
    } else {
        Playback::Pause
    }
}

/// After rebuilding the output, play it when `autoplay`, else pause it.
pub fn rebuild_playback(autoplay: bool) -> (r: Playback)
    ensures
        r == if autoplay {
            Playback::Play
        } else {
            Playback::Pause
        },
{
    if autoplay {
        Playback::Play
    } else {
        Playback::Pause
    }
}

/// The first step of a seek.
#[derive(Clone, Copy, Debug, PartialEq, Eq)]
pub enum SeekStep {
    /// The output has finished: build a new one at the target.
    Rebuild { autoplay: bool },
    /// Ask the output to seek in place.
    TrySeek { autoplay: bool },
}

/// How a seek starts; playback resumes afterwards exactly when the output
/// was playing before it.
pub fn seek_step(paused: bool, output_empty: bool) -> (r: SeekStep)
    ensures
        r == if output_empty {
            SeekStep::Rebuild { autoplay: !paused }
        } else {
            SeekStep::TrySeek { autoplay: !paused }
        },
{
    let autoplay = !paused;
    if output_empty {
        SeekStep::Rebuild { autoplay }
    } else {
        SeekStep::TrySeek { autoplay }
    }
}

/// What follows an in-place seek attempt.
#[derive(Clone, Copy, Debug, PartialEq, Eq)]
pub enum AfterSeek {
    /// The seek failed: build a new output at the target.
    Rebuild { autoplay: bool },
    /// The seek worked and playback resumes.
    Play,
    /// The seek worked and the output stays paused.
    Stay,
}

/// The step after an in-place seek attempt.
pub fn after_try_seek(seek_ok: bool, autoplay: bool) -> (r: AfterSeek)
    ensures
        r == if !seek_ok {
            AfterSeek::Rebuild { autoplay }
        } else if autoplay {
            AfterSeek::Play
        } else {
            AfterSeek::Stay
        },
{
    if !seek_ok {
        AfterSeek::Rebuild { autoplay }
    } else if autoplay {
        AfterSeek::Play
    } else {
        AfterSeek::Stay
    }
}

/// What the periodic sync does.
#[derive(Clone, Copy, Debug, PartialEq, Eq)]
pub enum SyncAction {
    Nothing,
    /// Rebuild at the start and play.
    Restart,
    /// Rebuild at the end and stay paused.
    ParkAtEnd,
}

/// The periodic sync: when the output ran out while playing, loop back to
/// the start or park at the end; otherwise leave it alone.
pub fn sync_action(paused: bool, output_empty: bool, looping: bool) -> (r: SyncAction)
    ensures
        r == if !paused && output_empty {
            if looping {
                SyncAction::Restart
            } else {
                SyncAction::ParkAtEnd
            }
        } else {
            SyncAction::Nothing
        },
{
    if !paused && output_empty {
        if looping {
            SyncAction::Restart
        } else {
            SyncAction::ParkAtEnd
        }
    } else {
        SyncAction::Nothing
    }
}

/// Whether the output is paused after a seek that started from `paused`:
/// every route leaves it exactly as paused as it was.
pub open spec fn paused_after_seek(paused: bool, output_empty: bool, seek_ok: bool) -> bool {
    match (if output_empty {
        SeekStep::Rebuild { autoplay: !paused }
    } else {
        SeekStep::TrySeek { autoplay: !paused }
    }) {
        SeekStep::Rebuild { autoplay } => !autoplay,
        SeekStep::TrySeek { autoplay } => if !seek_ok {
            !autoplay
        } else if autoplay {
            false
        } else {
            paused
        },
    }
}

/// Seeking never changes whether playback is paused, whichever way the
/// seek goes.
pub proof fn lemma_seek_keeps_pause_state(paused: bool, output_empty: bool, seek_ok: bool)
    ensures
        paused_after_seek(paused, output_empty, seek_ok) == paused,
{
}

} // verus!
