//! Pointer handling of the waveform canvas: left-drag seeks, right-drag
//! pans, the wheel zooms (vertical) or pans (horizontal).
use vstd::prelude::*;

verus! {

/// Which drag is in progress.
#[derive(Clone, Copy, Debug, PartialEq, Eq)]
pub struct DragState {
    pub seeking: bool,
    pub panning: bool,
}

/// A pointer event, reduced to what the canvas reacts to.
#[derive(Clone, Copy, Debug, PartialEq, Eq)]
pub enum PointerEvent {
    LeftPressed,
    RightPressed,
    Moved,
    LeftReleased,
    RightReleased,
    /// A wheel scroll: `vertical` when the vertical amount is non-zero and
    /// at least the horizontal one, `horizontal` when the horizontal amount
    /// is non-zero.
    Wheel { vertical: bool, horizontal: bool },
    Other,
}

/// What the canvas asks of the application.
#[derive(Clone, Copy, Debug, PartialEq, Eq)]
pub enum PointerAction {
    Nothing,
    /// Seek to the pointer's position.
    Seek,
    /// Remember the pointer's position as the start of a pan.
    StartPan,
    /// Pan by the pointer's movement since the last position.
    Pan,
    /// Zoom around the pointer by the vertical wheel amount.
    Zoom,
    /// Pan by the horizontal wheel amount.
    WheelPan,
}

/// The reaction to one event.
#[derive(Clone, Copy, Debug, PartialEq, Eq)]
pub struct PointerResponse {
    pub state: DragState,
    pub captured: bool,
    pub action: PointerAction,
}

pub open spec fn ignored(state: DragState) -> PointerResponse {
    PointerResponse { state, captured: false, action: PointerAction::Nothing }
}

pub open spec fn captured(state: DragState, action: PointerAction) -> PointerResponse {
    PointerResponse { state, captured: true, action }
}

/// How the canvas reacts to `event` with the pointer inside (`inside`) or
/// outside it.
pub open spec fn spec_pointer_step(state: DragState, event: PointerEvent, inside: bool) -> PointerResponse {
    match event {
        PointerEvent::LeftPressed => if inside {
            captured(DragState { seeking: true, ..state }, PointerAction::Seek)
        } else {
            ignored(state)
        },
        PointerEvent::RightPressed => if inside {
            captured(DragState { panning: true, ..state }, PointerAction::StartPan)
        } else {
            ignored(state)
        },
        PointerEvent::Moved => if state.seeking {
            if inside {
                captured(state, PointerAction::Seek)
            } else {
                ignored(state)
            }
        } else if state.panning {
            if inside {
                captured(state, PointerAction::Pan)
            } else {
                ignored(state)
            }
        } else {
            ignored(state)
        },
        PointerEvent::LeftReleased => captured(
            DragState { seeking: false, ..state },
            PointerAction::Nothing,
        ),
        PointerEvent::RightReleased => captured(
            DragState { panning: false, ..state },
            PointerAction::Nothing,
        ),
        PointerEvent::Wheel { vertical, horizontal } => if !inside {
            ignored(state)
        } else if vertical {
            captured(state, PointerAction::Zoom)
        } else if horizontal {
            captured(state, PointerAction::WheelPan)
        } else {
            ignored(state)
        },
        PointerEvent::Other => ignored(state),
    }
}

/// Reacts to a pointer event on the canvas.
pub fn pointer_step(state: DragState, event: PointerEvent, inside: bool) -> (r: PointerResponse)
    ensures
        r == spec_pointer_step(state, event, inside),
{
    match event {
        PointerEvent::LeftPressed => if inside {
            PointerResponse {
                state: DragState { seeking: true, panning: state.panning },
                captured: true,
                action: PointerAction::Seek,
            }
        } else {
            PointerResponse { state, captured: false, action: PointerAction::Nothing }
        },
        PointerEvent::RightPressed => if inside {
            PointerResponse {
                state: DragState { seeking: state.seeking, panning: true },
                captured: true,
                action: PointerAction::StartPan,
            }
        } else {
            PointerResponse { state, captured: false, action: PointerAction::Nothing }
        },
        PointerEvent::Moved => if state.seeking {
            if inside {
                PointerResponse { state, captured: true, action: PointerAction::Seek }
            } else {
                PointerResponse { state, captured: false, action: PointerAction::Nothing }
            }
        } else if state.panning {
            if inside {
                PointerResponse { state, captured: true, action: PointerAction::Pan }
            } else {
                PointerResponse { state, captured: false, action: PointerAction::Nothing }
            }
        } else {
            PointerResponse { state, captured: false, action: PointerAction::Nothing }
        },
        PointerEvent::LeftReleased => PointerResponse {
            state: DragState { seeking: false, panning: state.panning },
            captured: true,
            action: PointerAction::Nothing,
        },
        PointerEvent::RightReleased => PointerResponse {
            state: DragState { seeking: state.seeking, panning: false },
            captured: true,
            action: PointerAction::Nothing,
        },
        PointerEvent::Wheel { vertical, horizontal } => if !inside {
            PointerResponse { state, captured: false, action: PointerAction::Nothing }
        } else if vertical {
            PointerResponse { state, captured: true, action: PointerAction::Zoom }
        } else if horizontal {
            PointerResponse { state, captured: true, action: PointerAction::WheelPan }
        } else {
            PointerResponse { state, captured: false, action: PointerAction::Nothing }
        },
        PointerEvent::Other => PointerResponse { state, captured: false, action: PointerAction::Nothing },
    }
}

/// The pointer shape over the canvas.
#[derive(Clone, Copy, Debug, PartialEq, Eq)]
pub enum CursorShape {
    Grabbing,
    Grab,
    Default,
}

/// A grabbing hand while panning, an open hand over the canvas, the
/// default pointer elsewhere.
pub fn cursor_shape(panning: bool, over: bool) -> (r: CursorShape)
    ensures
        r == if panning {
            CursorShape::Grabbing
        } else if over {
            CursorShape::Grab
        } else {
            CursorShape::Default
        },
{
    if panning {
        CursorShape::Grabbing
    } else if over {
        CursorShape::Grab
    } else {
        CursorShape::Default
    }
}

/// Drags end with their button: after a left release nothing seeks, after
/// a right release nothing pans, and no event starts a drag from outside
/// the canvas.
pub proof fn lemma_drags_end_on_release(state: DragState, event: PointerEvent, inside: bool)
    ensures
        event == PointerEvent::LeftReleased ==> !spec_pointer_step(state, event, inside).state.seeking,
        event == PointerEvent::RightReleased ==> !spec_pointer_step(state, event, inside).state.panning,
        !inside ==> spec_pointer_step(state, event, inside).state.seeking ==> state.seeking,
        !inside ==> spec_pointer_step(state, event, inside).state.panning ==> state.panning,
        !inside ==> spec_pointer_step(state, event, inside).action == PointerAction::Nothing,
{
}

/// The wheel over the canvas: a scroll with a vertical amount (at least
/// the horizontal one) zooms around the pointer, whatever the horizontal
/// amount; a purely horizontal scroll pans; a scroll with neither amount,
/// or any scroll outside the canvas, does nothing. The wheel never changes
/// the drag state.
pub proof fn lemma_wheel_zooms_or_pans(state: DragState, vertical: bool, horizontal: bool, inside: bool)
    ensures
        ({
            let r = spec_pointer_step(state, PointerEvent::Wheel { vertical, horizontal }, inside);
            &&& r.state == state
            &&& (inside && vertical) ==> r.action == PointerAction::Zoom && r.captured
            &&& (inside && !vertical && horizontal) ==> r.action == PointerAction::WheelPan
                && r.captured
            &&& r.action == PointerAction::Zoom <==> inside && vertical
            &&& r.action == PointerAction::WheelPan <==> inside && !vertical && horizontal
            &&& r.captured <==> inside && (vertical || horizontal)
            &&& !r.captured ==> r.action == PointerAction::Nothing
        }),
{
}

/// Buttons over the canvas: a left press inside starts seeking and seeks
/// to the pointer, a right press inside starts panning from the pointer;
/// while a drag is held, moving inside the canvas seeks (left drag, which
/// takes precedence) or pans (right drag); moving without a drag does
/// nothing. Presses keep the other drag as it was.
pub proof fn lemma_buttons_drive_drags(state: DragState, inside: bool)
    ensures
        inside ==> spec_pointer_step(state, PointerEvent::LeftPressed, inside) == (PointerResponse {
            state: DragState { seeking: true, panning: state.panning },
            captured: true,
            action: PointerAction::Seek,
        }),
        inside ==> spec_pointer_step(state, PointerEvent::RightPressed, inside) == (PointerResponse {
            state: DragState { seeking: state.seeking, panning: true },
            captured: true,
            action: PointerAction::StartPan,
        }),
        spec_pointer_step(state, PointerEvent::Moved, inside).state == state,
        spec_pointer_step(state, PointerEvent::Moved, inside).action == (if inside && state.seeking {
            PointerAction::Seek
        } else if inside && state.panning {
            PointerAction::Pan
        } else {
            PointerAction::Nothing
        }),
        spec_pointer_step(state, PointerEvent::LeftReleased, inside).state == (DragState {
            seeking: false,
            panning: state.panning,
        }),
        spec_pointer_step(state, PointerEvent::RightReleased, inside).state == (DragState {
            seeking: state.seeking,
            panning: false,
        }),
        spec_pointer_step(state, PointerEvent::Other, inside).action == PointerAction::Nothing,
        spec_pointer_step(state, PointerEvent::Other, inside).state == state,
{
}

} // verus!
