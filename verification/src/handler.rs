use vstd::prelude::*;
use crate::events::EventKind;

verus! {

/// The state of one event handler. Handlers are a closed set: dispatch
/// recovers the handler/event pairing by matching this enum against the
/// event's `EventKind`, so no unchecked downcast can occur.
#[derive(Clone, Copy, PartialEq, Eq, Structural, Debug)]
pub enum HandlerState {
    /// Translates raw backend input into typed mouse/keyboard events.
    Input,
    /// Marks the whole graph for re-paint.
    Redraw,
    /// Refreshes a widget's cached bounds after the solver moved it.
    LayoutChange,
    /// Turns a moved slider handle into a value-changed report.
    Slider,
    /// Moves a slider handle while it is dragged; `start_pos` is the
    /// pointer offset from the handle's left edge at drag start.
    Drag { start_pos: i64 },
}

/// The event kind a handler state is bound to.
pub open spec fn state_kind(s: HandlerState) -> EventKind {
    match s {
        HandlerState::Input => EventKind::InputKind,
        HandlerState::Redraw => EventKind::RedrawKind,
        HandlerState::LayoutChange => EventKind::LayoutKind,
        HandlerState::Slider => EventKind::MovedSliderKind,
        HandlerState::Drag { .. } => EventKind::DragKind,
    }
}

/// Binds one handler to exactly one event type. Stored per widget for
/// widget-addressed events, or in the global registry for events
/// addressed to the whole UI.
#[derive(Clone, Copy, PartialEq, Eq, Structural, Debug)]
pub struct HandlerWrapper {
    pub state: HandlerState,
}

impl HandlerWrapper {
    /// The one event kind this handler accepts.
    pub open spec fn kind_spec(self) -> EventKind {
        state_kind(self.state)
    }

    /// Wraps a handler; the event kind it accepts follows from its state.
    pub fn new(state: HandlerState) -> (w: HandlerWrapper)
        ensures
            w.state == state,
            w.kind_spec() == state_kind(state),
    {
        HandlerWrapper { state }
    }

    /// Whether this handler accepts events of the given kind.
    pub fn handles(&self, kind: EventKind) -> (r: bool)
        ensures
            r == (self.kind_spec() == kind),
    {
        let own = match self.state {
            HandlerState::Input => EventKind::InputKind,
            HandlerState::Redraw => EventKind::RedrawKind,
            HandlerState::LayoutChange => EventKind::LayoutKind,
            HandlerState::Slider => EventKind::MovedSliderKind,
            HandlerState::Drag { .. } => EventKind::DragKind,
        };
        own == kind
    }
}

} // verus!
