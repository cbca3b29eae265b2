use vstd::prelude::*;

verus! {

/// Whether a button or key is pressed or released.
#[derive(Clone, Copy, PartialEq, Eq, Structural, Debug)]
pub enum ElementState {
    Pressed,
    Released,
}

/// The phase of a drag gesture delivered to a draggable widget.
#[derive(Clone, Copy, PartialEq, Eq, Structural, Debug)]
pub enum DragPhase {
    Start,
    Moved,
    End,
}

/// The closed set of input shapes the backend can hand to the core:
/// mouse move, mouse button, mouse wheel and keyboard input.
/// Positions and deltas are in whole pixels.
#[derive(Clone, Copy, PartialEq, Eq, Debug)]
pub enum RawInput {
    MouseMoved { x: i64, y: i64 },
    MouseButton { state: ElementState, button: u8 },
    MouseWheel { delta: i64 },
    KeyboardInput { state: ElementState, scan_code: u32, key_code: Option<u32> },
}

/// A raw backend input event, queued to the global sink for translation.
#[derive(Clone, Copy, PartialEq, Eq, Debug)]
pub struct InputEvent(pub RawInput);

/// A request to re-paint the whole graph.
#[derive(Clone, Copy, PartialEq, Eq, Structural, Debug)]
pub struct RedrawEvent;

/// Notification that the solver changed the resolved geometry of a widget.
#[derive(Clone, Copy, PartialEq, Eq, Structural, Debug)]
pub struct LayoutChanged(pub usize);

/// A slider handle moved: the new left and right edges of the handle.
#[derive(Clone, Copy, PartialEq, Eq, Structural, Debug)]
pub struct MovedSliderWidgetEvent {
    pub slider_left: i64,
    pub slider_right: i64,
}

/// A drag gesture event delivered to a draggable widget, with the
/// pointer position at which it happened.
#[derive(Clone, Copy, PartialEq, Eq, Structural, Debug)]
pub struct WidgetDrag {
    pub phase: DragPhase,
    pub x: i64,
    pub y: i64,
}

/// A typed event. Dispatch recovers the type through `EventKind`, so
/// handlers bound to one event type only ever see that type.
#[derive(Clone, Copy, PartialEq, Eq, Debug)]
pub enum Event {
    Input(InputEvent),
    Redraw(RedrawEvent),
    Layout(LayoutChanged),
    MouseMoved { x: i64, y: i64 },
    MouseButton { state: ElementState, button: u8 },
    MouseWheel { delta: i64 },
    KeyboardInput { state: ElementState, scan_code: u32, key_code: Option<u32> },
    Drag(WidgetDrag),
    MovedSlider(MovedSliderWidgetEvent),
}

/// The runtime type tag of an event, used to match handlers to events.
#[derive(Clone, Copy, PartialEq, Eq, Structural, Debug)]
pub enum EventKind {
    InputKind,
    RedrawKind,
    LayoutKind,
    MouseMovedKind,
    MouseButtonKind,
    MouseWheelKind,
    KeyboardKind,
    DragKind,
    MovedSliderKind,
}

impl Event {
    /// The type tag carried by this event.
    pub fn kind(&self) -> (k: EventKind)
        ensures
            k == self.kind_spec(),
    {
        match self {
            Event::Input(_) => EventKind::InputKind,
            Event::Redraw(_) => EventKind::RedrawKind,
            Event::Layout(_) => EventKind::LayoutKind,
            Event::MouseMoved { .. } => EventKind::MouseMovedKind,
            Event::MouseButton { .. } => EventKind::MouseButtonKind,
            Event::MouseWheel { .. } => EventKind::MouseWheelKind,
            Event::KeyboardInput { .. } => EventKind::KeyboardKind,
            Event::Drag(_) => EventKind::DragKind,
            Event::MovedSlider(_) => EventKind::MovedSliderKind,
        }
    }

    pub open spec fn kind_spec(self) -> EventKind {
        match self {
            Event::Input(_) => EventKind::InputKind,
            Event::Redraw(_) => EventKind::RedrawKind,
            Event::Layout(_) => EventKind::LayoutKind,
            Event::MouseMoved { .. } => EventKind::MouseMovedKind,
            Event::MouseButton { .. } => EventKind::MouseButtonKind,
            Event::MouseWheel { .. } => EventKind::MouseWheelKind,
            Event::KeyboardInput { .. } => EventKind::KeyboardKind,
            Event::Drag(_) => EventKind::DragKind,
            Event::MovedSlider(_) => EventKind::MovedSliderKind,
        }
    }
}

/// The routing target of a queued event: one widget, a whole subtree
/// (inclusive, delivered in pre-order), or the global sink.
#[derive(Clone, Copy, PartialEq, Eq, Structural, Debug)]
pub enum EventAddress {
    Widget(usize),
    SubTree(usize),
    Ui,
}

/// One queued delivery: where the event goes and what it is.
#[derive(Clone, Copy, PartialEq, Eq, Debug)]
pub struct QueueEntry {
    pub address: EventAddress,
    pub event: Event,
}

/// A FIFO of addressed events. Handlers may push while a drain is in
/// progress; new entries go to the back and are still processed within
/// the same drain cycle.
pub struct EventQueue {
    entries: Vec<QueueEntry>,
}

impl EventQueue {
    /// The queued entries, front first.
    pub closed spec fn view(&self) -> Seq<QueueEntry> {
        self.entries@
    }

    /// An empty queue.
    pub fn new() -> (q: EventQueue)
        ensures
            q@ == Seq::<QueueEntry>::empty(),
    {
        let q = EventQueue { entries: Vec::new() };
        proof {
            assert(q@ =~= Seq::<QueueEntry>::empty());
        }
        q
    }

    pub fn len(&self) -> (n: usize)
        ensures
            n == self@.len(),
    {
        self.entries.len()
    }

    /// Appends one addressed event at the back of the queue.
    pub fn push(&mut self, address: EventAddress, event: Event)
        ensures
            final(self)@ == old(self)@.push(QueueEntry { address, event }),
    {
        self.entries.push(QueueEntry { address, event });
    }

    /// Removes and returns the front entry.
    pub fn pop_front(&mut self) -> (e: QueueEntry)
        requires
            old(self)@.len() > 0,
        ensures
            e == old(self)@[0],
            final(self)@ == old(self)@.drop_first(),
    {
        let e = self.entries.remove(0);
        proof {
            assert(self@ =~= old(self)@.drop_first());
        }
        e
    }
}

} // verus!
