//! The decisions of the game loop: its configuration checks and the order
//! of each frame's callbacks.
use crate::input::CallbackState;
use vstd::prelude::*;

verus! {

/// The frame limit a game runs with: `-1` for none, or a positive number of
/// frames per second; anything else is refused.
pub fn frame_rate_limit(max_framerate: i32) -> (r: Result<Option<u32>, String>)
    ensures
        max_framerate == -1 ==> r == Ok::<Option<u32>, String>(None),
        max_framerate > 0 ==> r == Ok::<Option<u32>, String>(Some(max_framerate as u32)),
        (max_framerate != -1 && max_framerate <= 0) ==> (r matches Err(e) && e@
            == "max_framerate must be -1 or positive"@),
{
    if max_framerate == -1 {
        Ok(None)
    } else if max_framerate > 0 {
        Ok(Some(max_framerate as u32))
    } else {
        Err("max_framerate must be -1 or positive".to_owned())
    }
}

/// The client sizes a window can be created with: 1 to 32767 pixels a side.
pub fn check_window_size(width: u32, height: u32) -> (r: Result<(), String>)
    ensures
        r is Ok <==> (1 <= width <= 32767 && 1 <= height <= 32767),
        r matches Err(e) ==> e@ == "invalid window dimensions"@,
{
    if width == 0 || height == 0 || width > 32767 || height > 32767 {
        return Err("invalid window dimensions".to_owned());
    }
    Ok(())
}

/// How far the current frame of the game loop has got.
#[derive(Clone, Copy, Debug, PartialEq, Eq, Structural)]
pub enum FramePhase {
    /// Input was read.
    Started,
    /// The pending scene replaced the current one.
    Switched,
    /// The scene processed the frame.
    Processed,
}

/// What the game loop does next within a frame.
#[derive(Clone, Copy, Debug, PartialEq, Eq, Structural)]
pub enum FrameAction {
    /// Leave the loop: a callback asked to quit.
    Stop,
    /// Exit the current scene, clear the renderer and enter the pending one.
    SwitchScene,
    /// Let the scene process the frame.
    Process,
    /// Let the scene render, then present the frame.
    Render,
}

/// The next step of a frame. A request to quit is honoured before any
/// further callback; a pending scene takes over before the frame is
/// processed.
pub fn next_frame_action(phase: FramePhase, quit: bool, scene_pending: bool) -> (r: FrameAction)
    ensures
        quit ==> r == FrameAction::Stop,
        !quit ==> r == match phase {
            FramePhase::Started => if scene_pending {
                FrameAction::SwitchScene
            } else {
                FrameAction::Process
            },
            FramePhase::Switched => FrameAction::Process,
            FramePhase::Processed => FrameAction::Render,
        },
{
    if quit {
        return FrameAction::Stop;
    }
    match phase {
        FramePhase::Started => if scene_pending {
            FrameAction::SwitchScene
        } else {
            FrameAction::Process
        },
        FramePhase::Switched => FrameAction::Process,
        FramePhase::Processed => FrameAction::Render,
    }
}

/// What the fixed-rate worker does when a tick is due.
#[derive(Clone, Copy, Debug, PartialEq, Eq, Structural)]
pub enum TickAction {
    /// The game is quitting: the worker ends.
    Stop,
    /// A scene switch is pending: this tick is skipped.
    Skip,
    /// The current scene ticks.
    Tick,
}

/// The worker's decision for a due tick.
pub fn tick_action(quit: bool, scene_pending: bool) -> (r: TickAction)
    ensures
        r == if quit {
            TickAction::Stop
        } else if scene_pending {
            TickAction::Skip
        } else {
            TickAction::Tick
        },
{
    if quit {
        TickAction::Stop
    } else if scene_pending {
        TickAction::Skip
    } else {
        TickAction::Tick
    }
}

/// Whether the game is quitting once a callback that ran in `state` has
/// returned, when it was quitting (`quit`) before: a callback's request to
/// quit is added, never taken back.
pub fn finish_callback(quit: bool, state: &CallbackState) -> (r: bool)
    ensures
        r == (quit || state.quit),
{
    quit || state.quit
}

/// Whether the game is quitting after callbacks that ran in `states`, in
/// order, starting from `quit`.
pub open spec fn quitting_after(quit: bool, states: Seq<CallbackState>) -> bool
    decreases states.len(),
{
    if states.len() == 0 {
        quit
    } else {
        quitting_after(quit || states[0].quit, states.drop_first())
    }
}

/// A request to quit is kept: after any run of callbacks the game is
/// quitting exactly when it was before or one of them asked to quit, so
/// once quitting it stays so.
pub proof fn law_quit_is_kept(quit: bool, states: Seq<CallbackState>)
    ensures
        quitting_after(quit, states) == (quit || exists|i: int| 0 <= i < states.len() && (#[trigger] states[i]).quit),
        quit ==> quitting_after(quit, states),
    decreases states.len(),
{
    if states.len() > 0 {
        let rest = states.drop_first();
        law_quit_is_kept(quit || states[0].quit, rest);
        if exists|i: int| 0 <= i < states.len() && (#[trigger] states[i]).quit {
            let i = choose|i: int| 0 <= i < states.len() && (#[trigger] states[i]).quit;
            if i > 0 {
                assert(rest[i - 1].quit);
            }
        }
        if exists|i: int| 0 <= i < rest.len() && (#[trigger] rest[i]).quit {
            let i = choose|i: int| 0 <= i < rest.len() && (#[trigger] rest[i]).quit;
            assert(states[i + 1].quit);
        }
    }
}

} // verus!
