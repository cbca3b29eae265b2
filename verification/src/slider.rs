use vstd::prelude::*;
use crate::events::{
    DragPhase, Event, EventAddress, MovedSliderWidgetEvent, QueueEntry, WidgetDrag, EventQueue,
};
use crate::graph::WidgetBuilder;
use crate::handler::{HandlerState, HandlerWrapper};
use crate::solver::{Edge, Strength};
use crate::ui::{clamp_i64, sub_clamped, EventArgs, Ui};

verus! {

/// A slider value change report: the handle sits `num` pixels into a
/// track of `den` pixels, so the value is the ratio `num / den`.
/// Reported in place of a callback closure; the caller polls
/// `Ui::value_changes`.
#[derive(Clone, Copy, PartialEq, Eq, Structural, Debug)]
pub struct SliderValue {
    pub num: i64,
    pub den: i64,
}

/// Builds a slider: a 200 by 30 track with a draggable 30 by 30 handle
/// as its only child. The visual style of both is the rendering
/// backend's affair and carries no layout meaning.
pub struct SliderBuilder {
    pub widget: WidgetBuilder,
}

impl SliderBuilder {
    pub fn new() -> (s: SliderBuilder)
        ensures
            s.widget.wf(),
            s.widget.nodes@.len() == 2,
            s.widget.nodes@[0].width == 200 && s.widget.nodes@[0].height == 30,
            s.widget.nodes@[0].handlers@.len() == 0,
            s.widget.nodes@[1].width == 30 && s.widget.nodes@[1].height == 30,
            s.widget.nodes@[1].rel_parent == Some(0usize),
            s.widget.nodes@[1].handlers@.len() == 1,
            s.widget.nodes@[1].handlers@[0].state == (HandlerState::Drag { start_pos: 0 }),
    {
        let mut widget = WidgetBuilder::new();
        widget.dimensions(200, 30);

        let mut slider_handle = WidgetBuilder::new();
        slider_handle.dimensions(30, 30);
        slider_handle.add_handler(DragHandler::new());

        widget.add_child(slider_handle);
        SliderBuilder { widget }
    }

    /// Arranges for value changes to be reported on
    /// `Ui::value_changes` by giving the track a slider handler.
    pub fn on_val_changed(&mut self)
        requires
            old(self).widget.wf(),
        ensures
            final(self).widget.wf(),
            final(self).widget.nodes@.len() == old(self).widget.nodes@.len(),
            final(self).widget.nodes@[0].handlers@ == old(self).widget.nodes@[0].handlers@.push(
                HandlerWrapper { state: HandlerState::Slider },
            ),
            final(self).widget.nodes@[0].width == old(self).widget.nodes@[0].width,
            final(self).widget.nodes@[0].height == old(self).widget.nodes@[0].height,
            final(self).widget.nodes@[0].rel_parent == old(self).widget.nodes@[0].rel_parent,
            forall|k: int|
                1 <= k < old(self).widget.nodes@.len() ==> #[trigger] final(self).widget.nodes@[k]
                    == old(self).widget.nodes@[k],
    {
        self.widget.add_handler(SliderHandler::new());
    }
}

/// Builds the handler a slider registers on its track to turn moved
/// handles into value-change reports.
pub struct SliderHandler;

impl SliderHandler {
    pub fn new() -> (w: HandlerWrapper)
        ensures
            w.state == HandlerState::Slider,
    {
        HandlerWrapper::new(HandlerState::Slider)
    }
}

/// Builds the handler that makes a slider handle follow drag gestures.
pub struct DragHandler;

impl DragHandler {
    pub fn new() -> (w: HandlerWrapper)
        ensures
            w.state == (HandlerState::Drag { start_pos: 0 }),
    {
        HandlerWrapper::new(HandlerState::Drag { start_pos: 0 })
    }
}

/// The report a moved handle yields against the track bounds it moved
/// inside: the handle's left offset into the track over the track width
/// left for the handle.
pub open spec fn slider_report(ev: MovedSliderWidgetEvent, bounds: crate::graph::Bounds) -> SliderValue {
    SliderValue {
        num: clamp_i64(ev.slider_left - bounds.left) as i64,
        den: clamp_i64(
            (bounds.right - bounds.left) - (ev.slider_right - ev.slider_left),
        ) as i64,
    }
}

/// What delivering a moved-slider event to the slider handler on widget
/// `wid` does: exactly one value-change report, nothing else.
pub open spec fn slider_step(ev: MovedSliderWidgetEvent, wid: usize, u0: Ui, u1: Ui) -> bool {
    &&& u1.wf()
    &&& u1.graph == u0.graph
    &&& u1.solver == u0.solver
    &&& u1.value_changes@ == u0.value_changes@.push(slider_report(ev, u0.graph.node(wid).bounds))
}

/// Turns a moved slider handle into a value-change report on the widget
/// the handler is attached to (the track): the handle's left offset
/// inside the track over the track width left for the handle, and marks
/// the event handled.
pub fn slider_handle(
    event: &MovedSliderWidgetEvent,
    wid: usize,
    ui: &mut Ui,
    args: &mut EventArgs,
)
    requires
        old(ui).wf(),
        old(ui).graph.alive(wid),
    ensures
        slider_step(*event, wid, *old(ui), *final(ui)),
        *final(args) == (EventArgs { handled: true }),
{
    let bounds = ui.graph.get_bounds(wid);
    let num = sub_clamped(event.slider_left, bounds.left);
    let den = clamp128(
        ((bounds.right as i128) - (bounds.left as i128)) - ((event.slider_right as i128) - (
        event.slider_left as i128)),
    );
    ui.value_changes.push(SliderValue { num, den });
    args.handled = true;
}

/// What delivering a drag event to the drag handler on widget `wid`
/// does. A drag start only records the grab offset; any later phase pins
/// the handle's left layout variable (that variable alone enters edit
/// mode), queues the re-solve's LayoutChanged notifications, and then
/// reports the handle's new edges to the handle's parent.
pub open spec fn drag_step(
    start_pos: i64,
    new_start: i64,
    d: WidgetDrag,
    wid: usize,
    u0: Ui,
    u1: Ui,
    q0: Seq<QueueEntry>,
    q1: Seq<QueueEntry>,
) -> bool {
    &&& u1.wf()
    &&& u1.graph == u0.graph
    &&& u1.value_changes == u0.value_changes
    &&& forall|x: usize| #[trigger] u1.solver.registered(x) == u0.solver.registered(x)
    &&& (d.phase is Start ==> {
        &&& new_start as int == clamp_i64(d.x - u0.graph.node(wid).bounds.left)
        &&& q1 == q0
        &&& u1.solver == u0.solver
    })
    &&& (d.phase !is Start ==> {
        &&& new_start == start_pos
        &&& (u0.solver.registered(wid) ==> u1.solver.is_edit(wid, Edge::Left))
        &&& forall|x: usize, e2: Edge|
            !(x == wid && e2 == Edge::Left) ==> #[trigger] u1.solver.is_edit(x, e2)
                == u0.solver.is_edit(x, e2)
        &&& q1.len() >= q0.len()
        &&& forall|m: int| 0 <= m < q0.len() ==> #[trigger] q1[m] == q0[m]
        &&& (u0.graph.node(wid).parent matches Some(p) ==> q1.len() > q0.len() && q1.last()
            == (QueueEntry {
            address: EventAddress::Widget(p),
            event: Event::MovedSlider(
                MovedSliderWidgetEvent {
                    slider_left: clamp_i64(d.x - start_pos) as i64,
                    slider_right: clamp_i64(
                        clamp_i64(d.x - start_pos) + clamp_i64(
                            u0.graph.node(wid).bounds.right - u0.graph.node(wid).bounds.left,
                        ),
                    ) as i64,
                },
            ),
        }))
        &&& forall|m: int|
            q0.len() <= m < q1.len() - (if u0.graph.node(wid).parent is Some {
                1int
            } else {
                0int
            }) ==> crate::solver::is_layout_event(#[trigger] q1[m], u0.solver)
    })
}

/// Reacts to a drag gesture on a slider handle. A drag start records the
/// pointer's offset from the handle's left edge; every later phase pins
/// the handle's left layout variable to follow the pointer (adding the
/// edit variable at strong priority on first use) and reports the new
/// handle edges to the track, the handle's parent. Returns the handler's
/// new `start_pos` state.
pub fn drag_handle(
    start_pos: i64,
    event: &WidgetDrag,
    wid: usize,
    ui: &mut Ui,
    queue: &mut EventQueue,
) -> (new_start: i64)
    requires
        old(ui).wf(),
        old(ui).graph.alive(wid),
    ensures
        drag_step(start_pos, new_start, *event, wid, *old(ui), *final(ui), old(queue)@, final(queue)@),
{
    let bounds = ui.graph.get_bounds(wid);
    match event.phase {
        DragPhase::Start => sub_clamped(event.x, bounds.left),
        _ => {
            let target = sub_clamped(event.x, start_pos);
            if ui.solver.is_registered(wid) {
                if !ui.solver.has_edit_variable(wid, Edge::Left) {
                    let _ = ui.solver.add_edit_variable(wid, Edge::Left, Strength::Strong);
                }
                let _ = ui.solver.suggest_value(wid, Edge::Left, target, queue);
            }
            let handle_width = sub_clamped(bounds.right, bounds.left);
            let right = add_clamped(target, handle_width);
            match ui.graph.parent_of(wid) {
                Some(p) => {
                    queue.push(
                        EventAddress::Widget(p),
                        Event::MovedSlider(
                            MovedSliderWidgetEvent { slider_left: target, slider_right: right },
                        ),
                    );
                },
                None => {},
            }
            start_pos
        },
    }
}

/// `a + b`, clamped into the i64 range.
pub fn add_clamped(a: i64, b: i64) -> (r: i64)
    ensures
        r == clamp_i64(a + b),
{
    let d = (a as i128) + (b as i128);
    if d > i64::MAX as i128 {
        i64::MAX
    } else if d < i64::MIN as i128 {
        i64::MIN
    } else {
        d as i64
    }
}

/// A 128-bit value clamped into the i64 range.
pub fn clamp128(d: i128) -> (r: i64)
    ensures
        r as int == clamp_i64(d as int),
{
    if d > i64::MAX as i128 {
        i64::MAX
    } else if d < i64::MIN as i128 {
        i64::MIN
    } else {
        d as i64
    }
}

} // verus!
