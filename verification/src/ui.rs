use vstd::prelude::*;
use crate::events::{
    Event, EventAddress, EventKind, EventQueue, InputEvent, LayoutChanged, QueueEntry, RawInput,
    RedrawEvent,
};
use crate::graph::{WidgetBuilder, WidgetGraph};
use crate::handler::{HandlerState, HandlerWrapper};
use crate::slider::{drag_handle, slider_handle, SliderValue};
use crate::solver::{LimnSolver, Strength};

verus! {

/// The core state: the widget graph and the layout solver, plus the
/// channel slider value changes are reported on (polled by the caller in
/// place of a callback closure).
pub struct Ui {
    pub graph: WidgetGraph,
    pub solver: LimnSolver,
    pub value_changes: Vec<SliderValue>,
}

/// Per-delivery dispatch state: a handler can mark the event handled,
/// which stops propagation to the holders that would follow.
pub struct EventArgs {
    pub handled: bool,
}

/// An event handler bound to the event type `T`. Implementations get the
/// event together with mutable access to the core state, the queue (so
/// they may push further events) and the delivery state.
pub trait EventHandler<T> {
    fn handle(
        &mut self,
        event: &T,
        ui: &mut Ui,
        queue: &mut EventQueue,
        args: &mut EventArgs,
    )
        requires
            old(ui).wf(),
        ensures
            final(ui).wf(),
    ;
}

/// Forwards raw backend input to `Ui::handle_input`.
pub struct InputHandler;

/// Marks the whole graph for re-paint.
pub struct RedrawHandler;

/// Refreshes a widget's cached bounds after the solver moved it.
pub struct LayoutChangeHandler;

impl EventHandler<InputEvent> for InputHandler {
    fn handle(
        &mut self,
        event: &InputEvent,
        ui: &mut Ui,
        queue: &mut EventQueue,
        args: &mut EventArgs,
    ) {
        let _ = args;
        if ui.graph.root().is_some() {
            ui.handle_input(event.0, queue);
        }
    }
}

impl EventHandler<RedrawEvent> for RedrawHandler {
    fn handle(
        &mut self,
        event: &RedrawEvent,
        ui: &mut Ui,
        queue: &mut EventQueue,
        args: &mut EventArgs,
    ) {
        let _ = event;
        let _ = queue;
        let _ = args;
        ui.graph.redraw();
    }
}

impl EventHandler<LayoutChanged> for LayoutChangeHandler {
    fn handle(
        &mut self,
        event: &LayoutChanged,
        ui: &mut Ui,
        queue: &mut EventQueue,
        args: &mut EventArgs,
    ) {
        let _ = args;
        ui.layout_changed(event, queue);
    }
}

/// The global handlers every UI starts with: re-paint requests, layout
/// change bookkeeping, and raw input translation. (Gesture recognizers
/// and focus handling live with the input backend, outside the core.)
pub fn get_default_event_handlers() -> (r: Vec<HandlerWrapper>)
    ensures
        r@.len() == 3,
        r@[0].state == HandlerState::Redraw,
        r@[1].state == HandlerState::LayoutChange,
        r@[2].state == HandlerState::Input,
{
    let mut r: Vec<HandlerWrapper> = Vec::new();
    r.push(HandlerWrapper::new(HandlerState::Redraw));
    r.push(HandlerWrapper::new(HandlerState::LayoutChange));
    r.push(HandlerWrapper::new(HandlerState::Input));
    r
}

/// The queue entries one raw input event turns into: mouse events go to
/// the whole tree under `root` and to the global sink, keyboard input
/// only to the global sink.
pub open spec fn input_pushes(root: usize, event: RawInput) -> Seq<QueueEntry> {
    match event {
        RawInput::MouseWheel { delta } => seq![
            QueueEntry {
                address: EventAddress::SubTree(root),
                event: Event::MouseWheel { delta },
            },
            QueueEntry { address: EventAddress::Ui, event: Event::MouseWheel { delta } },
        ],
        RawInput::MouseButton { state, button } => seq![
            QueueEntry {
                address: EventAddress::SubTree(root),
                event: Event::MouseButton { state, button },
            },
            QueueEntry { address: EventAddress::Ui, event: Event::MouseButton { state, button } },
        ],
        RawInput::MouseMoved { x, y } => seq![
            QueueEntry {
                address: EventAddress::SubTree(root),
                event: Event::MouseMoved { x, y },
            },
            QueueEntry { address: EventAddress::Ui, event: Event::MouseMoved { x, y } },
        ],
        RawInput::KeyboardInput { state, scan_code, key_code } => seq![
            QueueEntry {
                address: EventAddress::Ui,
                event: Event::KeyboardInput { state, scan_code, key_code },
            },
        ],
    }
}

impl Ui {
    /// The graph is a tree, the registry is consistent, and only ids the
    /// graph ever assigned are registered with the solver.
    pub open spec fn wf(self) -> bool {
        &&& self.graph.wf()
        &&& self.solver.wf()
        &&& forall|w: usize| #[trigger] self.solver.registered(w) ==> self.graph.alive(w)
    }

    /// A fresh, empty UI.
    pub fn new() -> (ui: Ui)
        ensures
            ui.wf(),
            ui.graph.root_id() is None,
            ui.graph.len() == 0,
            ui.value_changes@.len() == 0,
            forall|w: usize| !ui.solver.registered(w),
    {
        Ui { graph: WidgetGraph::new(), solver: LimnSolver::new(), value_changes: Vec::new() }
    }

    /// Registers the `count` widgets with ids `base..base + count` with
    /// the solver and pins each to its requested size.
    fn register_inserted(
        &mut self,
        base: usize,
        dims: &Vec<(i64, i64)>,
        queue: &mut EventQueue,
    )
        requires
            old(self).wf(),
            base + dims@.len() <= usize::MAX,
            forall|x: usize|
                base <= x < base + dims@.len() ==> #[trigger] old(self).graph.alive(x),
            forall|w: usize| #[trigger] old(self).solver.registered(w) ==> w < base,
        ensures
            final(self).wf(),
            final(self).graph == old(self).graph,
            final(self).value_changes == old(self).value_changes,
            forall|w: usize|
                #[trigger] final(self).solver.registered(w) <==> (old(self).solver.registered(w)
                    || (base <= w < base + dims@.len())),
            forall|w: usize, e: crate::solver::Edge|
                #[trigger] final(self).solver.is_edit(w, e) == old(self).solver.is_edit(w, e),
    {
        let ghost s0 = self.solver;
        let mut k: usize = 0;
        while k < dims.len()
            invariant
                self.graph == old(self).graph,
                self.value_changes == old(self).value_changes,
                self.solver.wf(),
                old(self).wf(),
                0 <= k <= dims@.len(),
                base + dims@.len() <= usize::MAX,
                forall|x: usize|
                    base <= x < base + dims@.len() ==> #[trigger] old(self).graph.alive(x),
                forall|w: usize| #[trigger] s0.registered(w) ==> w < base,
                forall|w: usize|
                    #[trigger] self.solver.registered(w) <==> (s0.registered(w) || (base <= w < base
                        + k)),
                forall|w: usize, e: crate::solver::Edge|
                    #[trigger] self.solver.is_edit(w, e) == s0.is_edit(w, e),
            decreases dims@.len() - k,
        {
            let w = base + k;
            proof {
                assert(!self.solver.registered(w));
            }
            self.solver.register_widget(w);
            let (width, height) = dims[k];
            let cs = self.solver.size_constraints(w, width, height, Strength::Required);
            self.solver.add_constraints(cs, queue);
            k = k + 1;
        }
        proof {
            assert forall|w: usize| #[trigger] self.solver.registered(w) implies self.graph.alive(
                w,
            ) by {
                if !(base <= w < base + dims@.len()) {
                    assert(old(self).solver.registered(w));
                    assert(old(self).graph.alive(w));
                }
            }
        }
    }

    /// Consumes a detached widget tree as the graph's root, registering
    /// every inserted widget with the solver. At most one root may ever
    /// be set.
    pub fn set_root(&mut self, builder: WidgetBuilder, queue: &mut EventQueue) -> (id: usize)
        requires
            old(self).wf(),
            old(self).graph.root_id() is None,
            builder.wf(),
            old(self).graph.len() + builder.nodes@.len() <= usize::MAX,
        ensures
            final(self).wf(),
            final(self).graph.wf(),
            final(self).graph.root_id() == Some(id),
            id == old(self).graph.len(),
            final(self).graph.len() == old(self).graph.len() + builder.nodes@.len(),
            crate::graph::inserted_subtree(
                old(self).graph,
                final(self).graph,
                final(self).graph,
                id,
                builder,
            ),
            forall|x: usize|
                #[trigger] final(self).graph.alive(x) <==> (old(self).graph.alive(x) || (id <= x < id
                    + builder.nodes@.len())),
            forall|w: usize|
                #[trigger] final(self).solver.registered(w) <==> (old(self).solver.registered(w) || (
                id <= w < id + builder.nodes@.len())),
            forall|w: usize, e: crate::solver::Edge|
                #[trigger] final(self).solver.is_edit(w, e) == old(self).solver.is_edit(w, e),
    {
        let dims = collect_dims(&builder);
        let id = self.graph.set_root(builder);
        proof {
            assert forall|w: usize| #[trigger] self.solver.registered(w) implies w < id by {
                assert(old(self).solver.registered(w));
                assert(old(self).graph.alive(w));
                old(self).graph.lemma_alive_bound(w);
            }
        }
        self.register_inserted(id, &dims, queue);
        id
    }

    /// Inserts a detached widget tree as the last child of `parent_id`,
    /// registering every inserted widget with the solver.
    pub fn add_child(&mut self, parent_id: usize, builder: WidgetBuilder, queue: &mut EventQueue) -> (id: usize)
        requires
            old(self).wf(),
            old(self).graph.alive(parent_id),
            builder.wf(),
            old(self).graph.len() + builder.nodes@.len() <= usize::MAX,
        ensures
            final(self).wf(),
            final(self).graph.alive(id),
            id == old(self).graph.len(),
            final(self).graph.len() == old(self).graph.len() + builder.nodes@.len(),
            final(self).graph.node(id).parent == Some(parent_id),
            final(self).graph.node(parent_id).children@ == old(self).graph.node(
                parent_id,
            ).children@.push(id),
            crate::graph::inserted_subtree(
                old(self).graph,
                final(self).graph,
                final(self).graph,
                id,
                builder,
            ),
            final(self).graph.root_id() == old(self).graph.root_id(),
            forall|x: usize|
                #[trigger] final(self).graph.alive(x) <==> (old(self).graph.alive(x) || (id <= x < id
                    + builder.nodes@.len())),
            forall|w: usize|
                #[trigger] final(self).solver.registered(w) <==> (old(self).solver.registered(w) || (
                id <= w < id + builder.nodes@.len())),
            forall|w: usize, e: crate::solver::Edge|
                #[trigger] final(self).solver.is_edit(w, e) == old(self).solver.is_edit(w, e),
    {
        let dims = collect_dims(&builder);
        let id = self.graph.add_child(parent_id, builder);
        proof {
            assert forall|w: usize| #[trigger] self.solver.registered(w) implies w < id by {
                assert(old(self).solver.registered(w));
                assert(old(self).graph.alive(w));
                old(self).graph.lemma_alive_bound(w);
            }
        }
        self.register_inserted(id, &dims, queue);
        id
    }

    /// Removes a widget and its whole subtree from the graph, and
    /// deregisters every layout variable those widgets registered.
    /// Removing an id that is not in the graph changes nothing.
    pub fn remove_widget(&mut self, id: usize)
        requires
            old(self).wf(),
        ensures
            final(self).wf(),
            forall|x: usize|
                #[trigger] final(self).graph.alive(x) <==> (old(self).graph.alive(x) && !old(
                    self,
                ).graph.is_desc(x, id)),
            forall|x: usize|
                #[trigger] final(self).solver.registered(x) <==> (old(self).solver.registered(x)
                    && !old(self).graph.is_desc(x, id)),
            forall|x: usize, e: crate::solver::Edge|
                #[trigger] final(self).solver.is_edit(x, e) <==> (old(self).solver.is_edit(x, e)
                    && !old(self).graph.is_desc(x, id)),
    {
        let ghost g0 = *self;
        if !self.graph.is_alive(id) {
            proof {
                assert forall|x: usize| #[trigger] g0.graph.alive(x) implies !g0.graph.is_desc(
                    x,
                    id,
                ) by {
                    g0.graph.lemma_dead_not_desc(x, id);
                }
                assert forall|x: usize|
                    #[trigger] self.solver.registered(x) implies !g0.graph.is_desc(x, id) by {
                    assert(g0.graph.alive(x));
                    g0.graph.lemma_dead_not_desc(x, id);
                }
                assert forall|x: usize, e: crate::solver::Edge|
                    #[trigger] self.solver.is_edit(x, e) implies !g0.graph.is_desc(x, id) by {
                    self.solver.lemma_is_edit_registered(x, e);
                    assert(g0.graph.alive(x));
                    g0.graph.lemma_dead_not_desc(x, id);
                }
            }
            return ;
        }
        let list = self.graph.widgets_under(id);
        proof {
            self.graph.lemma_preorder_desc(id);
        }
        self.graph.remove_widget(id);
        let ghost gafter = self.graph;
        let mut i: usize = 0;
        while i < list.len()
            invariant
                self.graph.wf(),
                self.solver.wf(),
                g0.wf(),
                g0.graph.alive(id),
                self.graph == gafter,
                self.value_changes == g0.value_changes,
                list@ == g0.graph.preorder(id),
                forall|x: usize| g0.graph.preorder(id).contains(x) <==> g0.graph.is_desc(x, id),
                0 <= i <= list@.len(),
                forall|x: usize|
                    #[trigger] self.solver.registered(x) <==> (g0.solver.registered(x)
                        && !list@.take(i as int).contains(x)),
                forall|x: usize, e: crate::solver::Edge|
                    #[trigger] self.solver.is_edit(x, e) <==> (g0.solver.is_edit(x, e)
                        && !list@.take(i as int).contains(x)),
            decreases list@.len() - i,
        {
            let x = list[i];
            let ghost spre = self.solver;
            self.solver.remove_widget(x);
            proof {
                assert(list@.take(i + 1int) =~= list@.take(i as int).push(list@[i as int]));
                assert forall|y: usize|
                    #[trigger] self.solver.registered(y) <==> (g0.solver.registered(y)
                        && !list@.take(i + 1int).contains(y)) by {
                    take_push_contains(list@, i as int, y);
                }
                assert forall|y: usize, e: crate::solver::Edge|
                    #[trigger] self.solver.is_edit(y, e) <==> (g0.solver.is_edit(y, e)
                        && !list@.take(i + 1int).contains(y)) by {
                    take_push_contains(list@, i as int, y);
                }
            }
            i = i + 1;
        }
        proof {
            assert(list@.take(list@.len() as int) =~= list@);
            assert forall|x: usize|
                #[trigger] self.solver.registered(x) implies self.graph.alive(x) by {
                assert(g0.solver.registered(x) && !list@.contains(x));
                assert(g0.graph.alive(x));
                assert(!g0.graph.is_desc(x, id));
            }
            assert forall|x: usize|
                #[trigger] self.solver.registered(x) <==> (g0.solver.registered(x)
                    && !g0.graph.is_desc(x, id)) by {
                assert(self.solver.registered(x) <==> (g0.solver.registered(x)
                    && !list@.contains(x)));
            }
            assert forall|x: usize, e: crate::solver::Edge|
                #[trigger] self.solver.is_edit(x, e) <==> (g0.solver.is_edit(x, e)
                    && !g0.graph.is_desc(x, id)) by {
                assert(self.solver.is_edit(x, e) <==> (g0.solver.is_edit(x, e)
                    && !list@.contains(x)));
            }
        }
    }

    /// Translates one raw backend input event into queue pushes: mouse
    /// events go to every widget (the subtree of the root) and to the
    /// global sink; keyboard input goes to the global sink alone.
    pub fn handle_input(&self, event: RawInput, queue: &mut EventQueue)
        requires
            self.wf(),
            self.graph.root_id() is Some,
        ensures
            final(queue)@ == old(queue)@ + input_pushes(self.graph.root_id().unwrap(), event),
    {
        let root = match self.graph.root() {
            Some(r) => r,
            None => 0,  // unreachable: a root is required
        };
        let all_widgets = EventAddress::SubTree(root);
        match event {
            RawInput::MouseWheel { delta } => {
                queue.push(all_widgets, Event::MouseWheel { delta });
                queue.push(EventAddress::Ui, Event::MouseWheel { delta });
            },
            RawInput::MouseButton { state, button } => {
                queue.push(all_widgets, Event::MouseButton { state, button });
                queue.push(EventAddress::Ui, Event::MouseButton { state, button });
            },
            RawInput::MouseMoved { x, y } => {
                queue.push(all_widgets, Event::MouseMoved { x, y });
                queue.push(EventAddress::Ui, Event::MouseMoved { x, y });
            },
            RawInput::KeyboardInput { state, scan_code, key_code } => {
                queue.push(
                    EventAddress::Ui,
                    Event::KeyboardInput { state, scan_code, key_code },
                );
            },
        }
        proof {
            assert(queue@ =~= old(queue)@ + input_pushes(self.graph.root_id().unwrap(), event));
        }
    }

    /// Reacts to a LayoutChanged notification: refreshes the widget's
    /// cached bounds from the solver's solution (a widget removed since
    /// the notification was queued is skipped), queues one redraw request
    /// to the global sink and marks the graph for re-paint. Nothing else
    /// changes: the solver, the value-change reports and every other
    /// widget stay as they were.
    pub fn layout_changed(&mut self, event: &LayoutChanged, queue: &mut EventQueue)
        requires
            old(self).wf(),
        ensures
            layout_step(*event, *old(self), *final(self), old(queue)@, final(queue)@),
    {
        let LayoutChanged(widget_id) = *event;
        let updated = self.graph.is_alive(widget_id) && self.solver.is_registered(widget_id);
        if updated {
            let bounds = self.solver.resolved_bounds(widget_id);
            self.graph.set_bounds(widget_id, bounds);
        }
        let ghost gmid = self.graph;
        // Redraw everything when layout changes.
        queue.push(EventAddress::Ui, Event::Redraw(RedrawEvent));
        self.graph.redraw();
        proof {
            if old(self).graph.alive(widget_id) && old(self).solver.registered(widget_id) {
                assert(gmid.alive(widget_id));
                assert(crate::graph::widget_eq(self.graph.node(widget_id), gmid.node(widget_id)));
            }
            assert forall|x: usize|
                #[trigger] old(self).graph.alive(x) && x != event.0 implies crate::graph::widget_eq(
                self.graph.node(x),
                old(self).graph.node(x),
            ) by {
                if updated {
                    assert(crate::graph::widget_eq(gmid.node(x), old(self).graph.node(x)));
                }
                assert(gmid.alive(x));
                assert(crate::graph::widget_eq(self.graph.node(x), gmid.node(x)));
            }
            if old(self).graph.alive(event.0) {
                assert(gmid.alive(event.0));
                assert(crate::graph::widget_eq(self.graph.node(event.0), gmid.node(event.0)));
                if !updated {
                    assert(crate::graph::widget_eq(gmid.node(event.0), old(self).graph.node(event.0)));
                }
            }
        }
    }

    /// The window size that fits the root widget: the width and height of
    /// the root's resolved bounds, for the backend to apply.
    pub fn resize_window_to_fit(&self) -> (r: (i64, i64))
        requires
            self.wf(),
            self.graph.root_id() is Some,
            self.solver.registered(self.graph.root_id().unwrap()),
        ensures
            ({
                let root = self.graph.root_id().unwrap();
                let w = self.solver.value_at(root, crate::solver::Edge::Right) - self.solver.value_at(
                    root,
                    crate::solver::Edge::Left,
                );
                let h = self.solver.value_at(root, crate::solver::Edge::Bottom)
                    - self.solver.value_at(root, crate::solver::Edge::Top);
                &&& r.0 == clamp_i64(w)
                &&& r.1 == clamp_i64(h)
            }),
    {
        let root = match self.graph.root() {
            Some(r) => r,
            None => 0,  // unreachable: a root is required
        };
        let b = self.solver.resolved_bounds(root);
        (sub_clamped(b.right, b.left), sub_clamped(b.bottom, b.top))
    }
}

/// Two graphs holding the same widgets: same ids, same nodes; only the
/// re-paint mark may differ.
pub open spec fn same_widgets(g0: WidgetGraph, g1: WidgetGraph) -> bool {
    &&& g1.len() == g0.len()
    &&& g1.root_id() == g0.root_id()
    &&& forall|x: usize| #[trigger] g1.alive(x) == g0.alive(x)
    &&& forall|x: usize|
        #[trigger] g0.alive(x) ==> crate::graph::widget_eq(g1.node(x), g0.node(x))
}

/// What a redraw request does: the graph is marked for re-paint and
/// nothing else changes.
pub open spec fn redraw_step(u0: Ui, u1: Ui) -> bool {
    &&& u1.wf()
    &&& u1.graph.dirty_spec()
    &&& same_widgets(u0.graph, u1.graph)
    &&& u1.solver == u0.solver
    &&& u1.value_changes == u0.value_changes
}

/// What reacting to one LayoutChanged notification does: the named
/// widget's cached bounds are refreshed from the solver's solution (a
/// dangling id is skipped), one redraw request is queued to the global
/// sink, the graph is marked for re-paint, and nothing else changes.
pub open spec fn layout_step(
    lc: LayoutChanged,
    u0: Ui,
    u1: Ui,
    q0: Seq<QueueEntry>,
    q1: Seq<QueueEntry>,
) -> bool {
    &&& u1.wf()
    &&& u1.graph.dirty_spec()
    &&& q1 == q0.push(QueueEntry { address: EventAddress::Ui, event: Event::Redraw(RedrawEvent) })
    &&& u1.solver == u0.solver
    &&& u1.value_changes == u0.value_changes
    &&& u1.graph.len() == u0.graph.len()
    &&& u1.graph.root_id() == u0.graph.root_id()
    &&& forall|x: usize| #[trigger] u1.graph.alive(x) == u0.graph.alive(x)
    &&& forall|x: usize|
        #[trigger] u0.graph.alive(x) && x != lc.0 ==> crate::graph::widget_eq(
            u1.graph.node(x),
            u0.graph.node(x),
        )
    &&& (u0.graph.alive(lc.0) ==> {
        let a = u0.graph.node(lc.0);
        let b = u1.graph.node(lc.0);
        &&& b.parent == a.parent
        &&& b.children@ == a.children@
        &&& b.handlers@ == a.handlers@
        &&& if u0.solver.registered(lc.0) {
            &&& b.bounds.left == u0.solver.value_at(lc.0, crate::solver::Edge::Left)
            &&& b.bounds.top == u0.solver.value_at(lc.0, crate::solver::Edge::Top)
            &&& b.bounds.right == u0.solver.value_at(lc.0, crate::solver::Edge::Right)
            &&& b.bounds.bottom == u0.solver.value_at(lc.0, crate::solver::Edge::Bottom)
        } else {
            b.bounds == a.bounds
        }
    })
}

/// What delivering one event to a handler in `state` does — the exact
/// dispatch step, by handler state. `u0`, `q0`, `a0` are the core state,
/// queue and delivery state before the call; `u1`, `q1`, `a1` after;
/// `ns` the handler's state after. A handler given an event of another
/// shape, or a widget handler without a live holder, changes nothing.
pub open spec fn handler_step(
    state: HandlerState,
    ns: HandlerState,
    event: Event,
    holder: Option<usize>,
    u0: Ui,
    u1: Ui,
    q0: Seq<QueueEntry>,
    q1: Seq<QueueEntry>,
    a0: EventArgs,
    a1: EventArgs,
) -> bool {
    match state {
        HandlerState::Input => {
            &&& ns == state
            &&& a1 == a0
            &&& u1 == u0
            &&& match event {
                Event::Input(ie) => if u0.graph.root_id() is Some {
                    q1 == q0 + input_pushes(u0.graph.root_id().unwrap(), ie.0)
                } else {
                    q1 == q0
                },
                _ => q1 == q0,
            }
        },
        HandlerState::Redraw => {
            &&& ns == state
            &&& a1 == a0
            &&& q1 == q0
            &&& if event is Redraw {
                redraw_step(u0, u1)
            } else {
                u1 == u0
            }
        },
        HandlerState::LayoutChange => {
            &&& ns == state
            &&& a1 == a0
            &&& match event {
                Event::Layout(lc) => layout_step(lc, u0, u1, q0, q1),
                _ => u1 == u0 && q1 == q0,
            }
        },
        HandlerState::Slider => {
            &&& ns == state
            &&& q1 == q0
            &&& match (event, holder) {
                (Event::MovedSlider(ev), Some(wid)) => if u0.graph.alive(wid) {
                    crate::slider::slider_step(ev, wid, u0, u1) && a1 == (EventArgs {
                        handled: true,
                    })
                } else {
                    u1 == u0 && a1 == a0
                },
                _ => u1 == u0 && a1 == a0,
            }
        },
        HandlerState::Drag { start_pos } => {
            &&& a1 == a0
            &&& match (event, holder) {
                (Event::Drag(d), Some(wid)) => if u0.graph.alive(wid) {
                    ns matches HandlerState::Drag { start_pos: np } && crate::slider::drag_step(
                        start_pos,
                        np,
                        d,
                        wid,
                        u0,
                        u1,
                        q0,
                        q1,
                    )
                } else {
                    ns == state && u1 == u0 && q1 == q0
                },
                _ => ns == state && u1 == u0 && q1 == q0,
            }
        },
    }
}

/// A dispatch step never clears the re-paint mark.
pub proof fn lemma_step_keeps_dirty(
    state: HandlerState,
    ns: HandlerState,
    event: Event,
    holder: Option<usize>,
    u0: Ui,
    u1: Ui,
    q0: Seq<QueueEntry>,
    q1: Seq<QueueEntry>,
    a0: EventArgs,
    a1: EventArgs,
)
    requires
        handler_step(state, ns, event, holder, u0, u1, q0, q1, a0, a1),
        u0.graph.dirty_spec(),
    ensures
        u1.graph.dirty_spec(),
{
    match state {
        HandlerState::Input => {},
        HandlerState::Redraw => {},
        HandlerState::LayoutChange => {},
        HandlerState::Slider => {},
        HandlerState::Drag { .. } => {},
    }
}

impl HandlerWrapper {
    /// Dispatches one event to the wrapped handler: a no-op unless the
    /// handler accepts the event's kind. `holder` is the widget the
    /// handler is attached to, or `None` for the global registry.
    pub fn handle(
        &mut self,
        event: &Event,
        holder: Option<usize>,
        ui: &mut Ui,
        queue: &mut EventQueue,
        args: &mut EventArgs,
    )
        requires
            old(ui).wf(),
        ensures
            final(ui).wf(),
            final(self).kind_spec() == old(self).kind_spec(),
            old(self).kind_spec() == event.kind_spec() ==> handler_step(
                old(self).state,
                final(self).state,
                *event,
                holder,
                *old(ui),
                *final(ui),
                old(queue)@,
                final(queue)@,
                *old(args),
                *final(args),
            ),
            old(self).kind_spec() != event.kind_spec() ==> (*final(self) == *old(self) && *final(ui)
                == *old(ui) && final(queue)@ == old(queue)@ && *final(args) == *old(args)),
    {
        if self.handles(event.kind()) {
            let ns = run_handler(self.state, event, holder, ui, queue, args);
            self.state = ns;
        }
    }
}

/// Runs one handler on one event, returning the handler's updated state
/// for write-back. `holder` is the widget the handler is attached to, or
/// `None` for the global registry. A handler whose bound kind does not
/// match the event leaves everything unchanged.
fn run_handler(
    state: HandlerState,
    event: &Event,
    holder: Option<usize>,
    ui: &mut Ui,
    queue: &mut EventQueue,
    args: &mut EventArgs,
) -> (ns: HandlerState)
    requires
        old(ui).wf(),
    ensures
        final(ui).wf(),
        crate::handler::state_kind(ns) == crate::handler::state_kind(state),
        handler_step(
            state,
            ns,
            *event,
            holder,
            *old(ui),
            *final(ui),
            old(queue)@,
            final(queue)@,
            *old(args),
            *final(args),
        ),
{
    match state {
        HandlerState::Input => {
            if let Event::Input(ie) = event {
                if ui.graph.root().is_some() {
                    ui.handle_input(ie.0, queue);
                }
            }
            state
        },
        HandlerState::Redraw => {
            if let Event::Redraw(_) = event {
                ui.graph.redraw();
            }
            state
        },
        HandlerState::LayoutChange => {
            if let Event::Layout(lc) = event {
                ui.layout_changed(lc, queue);
            }
            state
        },
        HandlerState::Slider => {
            if let Event::MovedSlider(ev) = event {
                if let Some(wid) = holder {
                    if ui.graph.is_alive(wid) {
                        slider_handle(ev, wid, ui, args);
                    }
                }
            }
            state
        },
        HandlerState::Drag { start_pos } => {
            if let Event::Drag(d) = event {
                if let Some(wid) = holder {
                    if ui.graph.is_alive(wid) {
                        let ns = drag_handle(start_pos, d, wid, ui, queue);
                        return HandlerState::Drag { start_pos: ns };
                    }
                }
            }
            state
        },
    }
}

/// Delivers one event to every matching handler of one widget. A widget
/// no longer in the graph (a dangling address) is a silent no-op.
/// Handlers may mutate the graph during delivery, so liveness and the
/// handler list are re-checked around every call.
/// Whether delivering `event` to widget `wid` is exactly one slider
/// report: the widget is live and holds one handler, the slider handler,
/// and the event is a moved-slider notification.
pub open spec fn single_slider_delivery(u: Ui, wid: usize, event: Event) -> bool {
    &&& u.graph.alive(wid)
    &&& u.graph.node(wid).handlers@ == seq![HandlerWrapper { state: HandlerState::Slider }]
    &&& event is MovedSlider
}

fn dispatch_to_widget(
    ui: &mut Ui,
    queue: &mut EventQueue,
    wid: usize,
    event: &Event,
    args: &mut EventArgs,
)
    requires
        old(ui).wf(),
    ensures
        final(ui).wf(),
        !old(ui).graph.alive(wid) ==> (*final(ui) == *old(ui) && final(queue)@ == old(queue)@
            && *final(args) == *old(args)),
        old(ui).graph.dirty_spec() ==> final(ui).graph.dirty_spec(),
        single_slider_delivery(*old(ui), wid, *event) ==> (final(args).handled
            && final(ui).value_changes@ == old(ui).value_changes@.push(
            crate::slider::slider_report(event->MovedSlider_0, old(ui).graph.node(wid).bounds),
        )),
{
    let ghost shape = single_slider_delivery(*old(ui), wid, *event);
    if !ui.graph.is_alive(wid) {
        return ;
    }
    let mut j: usize = 0;
    let mut fuel = ui.graph.handler_count(wid);
    while fuel > 0 && ui.graph.is_alive(wid) && j < ui.graph.handler_count(wid)
        invariant
            ui.wf(),
            shape == single_slider_delivery(*old(ui), wid, *event),
            old(ui).graph.dirty_spec() ==> ui.graph.dirty_spec(),
            shape ==> (j == 0 && fuel == 1 && *ui == *old(ui) && *args == *old(args)) || (j == 1
                && ui.graph.alive(wid) && ui.graph.node(wid).handlers@.len() == 1 && args.handled
                && ui.value_changes@ == old(ui).value_changes@.push(
                crate::slider::slider_report(
                    event->MovedSlider_0,
                    old(ui).graph.node(wid).bounds,
                ),
            )),
        decreases fuel,
    {
        fuel = fuel - 1;
        let mut h = ui.graph.get_handler(wid, j);
        proof {
            if shape && j == 0 && *ui == *old(ui) {
                assert(old(ui).graph.node(wid).handlers@[0] == (HandlerWrapper {
                    state: HandlerState::Slider,
                }));
                assert(h == (HandlerWrapper { state: HandlerState::Slider }));
            }
        }
        if h.handles(event.kind()) {
            let ghost upre = *ui;
            let ghost hpre = h;
            let ghost apre = *args;
            let ghost qpre = queue@;
            h.handle(event, Some(wid), ui, queue, args);
            proof {
                if upre.graph.dirty_spec() {
                    lemma_step_keeps_dirty(
                        hpre.state,
                        h.state,
                        *event,
                        Some(wid),
                        upre,
                        *ui,
                        qpre,
                        queue@,
                        apre,
                        *args,
                    );
                }
            }
            if ui.graph.is_alive(wid) {
                if j < ui.graph.handler_count(wid) {
                    ui.graph.set_handler(wid, j, h);
                }
            }
        }
        j = j + 1;
    }
}

/// Delivers one event to every matching handler of the global registry.
fn dispatch_to_globals(
    ui: &mut Ui,
    queue: &mut EventQueue,
    globals: &mut Vec<HandlerWrapper>,
    event: &Event,
    args: &mut EventArgs,
)
    requires
        old(ui).wf(),
    ensures
        final(ui).wf(),
        final(globals)@.len() == old(globals)@.len(),
        forall|m: int|
            0 <= m < old(globals)@.len() ==> (#[trigger] final(globals)@[m]).kind_spec() == old(
                globals,
            )@[m].kind_spec(),
        old(ui).graph.dirty_spec() ==> final(ui).graph.dirty_spec(),
        *event is Redraw && (exists|m: int|
            0 <= m < old(globals)@.len() && (#[trigger] old(globals)@[m]).kind_spec()
                == EventKind::RedrawKind) ==> final(ui).graph.dirty_spec(),
{
    let mut j: usize = 0;
    while j < globals.len()
        invariant
            ui.wf(),
            0 <= j <= globals@.len(),
            globals@.len() == old(globals)@.len(),
            forall|m: int|
                0 <= m < old(globals)@.len() ==> (#[trigger] globals@[m]).kind_spec() == old(
                    globals,
                )@[m].kind_spec(),
            old(ui).graph.dirty_spec() ==> ui.graph.dirty_spec(),
            *event is Redraw && (exists|m: int|
                0 <= m < j && (#[trigger] old(globals)@[m]).kind_spec()
                    == EventKind::RedrawKind) ==> ui.graph.dirty_spec(),
        decreases globals@.len() - j,
    {
        let mut h = globals[j];
        if h.handles(event.kind()) {
            let ghost upre = *ui;
            let ghost hpre = h;
            let ghost apre = *args;
            let ghost qpre = queue@;
            h.handle(event, None, ui, queue, args);
            proof {
                if upre.graph.dirty_spec() {
                    lemma_step_keeps_dirty(
                        hpre.state,
                        h.state,
                        *event,
                        None,
                        upre,
                        *ui,
                        qpre,
                        queue@,
                        apre,
                        *args,
                    );
                }
                if *event is Redraw && hpre.kind_spec() == EventKind::RedrawKind {
                    assert(hpre.state == HandlerState::Redraw);
                    assert(ui.graph.dirty_spec());
                }
            }
            let slot = &mut globals[j];
            *slot = h;
        }
        j = j + 1;
    }
}

/// Resolves one address against the current graph and delivers the event
/// to the holders it names, in order: the global registry for `Ui`, the
/// one widget for `Widget(id)`, and the pre-order subtree for
/// `SubTree(id)` — ancestors before descendants, stopping once a holder
/// marks the event handled. An address naming a removed widget resolves
/// to nothing: the event is silently dropped.
pub fn dispatch_entry(
    ui: &mut Ui,
    queue: &mut EventQueue,
    globals: &mut Vec<HandlerWrapper>,
    address: EventAddress,
    event: &Event,
) -> (handled: bool)
    requires
        old(ui).wf(),
    ensures
        final(ui).wf(),
        address matches EventAddress::Widget(id) && !old(ui).graph.alive(id) ==> (*final(ui)
            == *old(ui) && final(queue)@ == old(queue)@ && final(globals)@ == old(globals)@
            && !handled),
        old(ui).graph.dirty_spec() ==> final(ui).graph.dirty_spec(),
        final(globals)@.len() == old(globals)@.len(),
        address == EventAddress::Ui && *event is Redraw && (exists|m: int|
            0 <= m < old(globals)@.len() && (#[trigger] old(globals)@[m]).kind_spec()
                == EventKind::RedrawKind) ==> final(ui).graph.dirty_spec(),
        address matches EventAddress::Widget(id) ==> (single_slider_delivery(*old(ui), id, *event)
            ==> (handled && final(ui).value_changes@ == old(ui).value_changes@.push(
            crate::slider::slider_report(event->MovedSlider_0, old(ui).graph.node(id).bounds),
        ))),
{
    let mut args = EventArgs { handled: false };
    match address {
        EventAddress::Ui => {
            dispatch_to_globals(ui, queue, globals, event, &mut args);
        },
        EventAddress::Widget(id) => {
            dispatch_to_widget(ui, queue, id, event, &mut args);
        },
        EventAddress::SubTree(id) => {
            if ui.graph.is_alive(id) {
                let list = ui.graph.widgets_under(id);
                let mut li: usize = 0;
                while li < list.len() && !args.handled
                    invariant
                        ui.wf(),
                        old(ui).graph.dirty_spec() ==> ui.graph.dirty_spec(),
                    decreases list@.len() - li,
                {
                    dispatch_to_widget(ui, queue, list[li], event, &mut args);
                    li = li + 1;
                }
            }
        },
    }
    args.handled
}

/// Whether a queue holds exactly one event addressed to a widget that is
/// not in the graph.
pub open spec fn single_dead_widget_entry(q: Seq<QueueEntry>, ui: Ui) -> bool {
    q.len() == 1 && (q[0].address matches EventAddress::Widget(id) && !ui.graph.alive(id))
}

/// Whether a queue holds exactly one redraw request to the global sink
/// while the registry carries a redraw handler to receive it.
pub open spec fn single_redraw_entry(q: Seq<QueueEntry>, globals: Seq<HandlerWrapper>) -> bool {
    &&& q.len() == 1
    &&& q[0].address == EventAddress::Ui
    &&& q[0].event is Redraw
    &&& exists|m: int|
        0 <= m < globals.len() && (#[trigger] globals[m]).kind_spec() == EventKind::RedrawKind
}

/// Drains the queue: pops the front entry, resolves its address against
/// the current graph and delivers it, until the queue — including
/// everything handlers pushed along the way — is empty. An event
/// addressed to a widget that is gone fires no handler: draining a queue
/// that holds only such an event completes and changes nothing.
///
/// `fuel` bounds the number of deliveries, since handlers may push
/// without bound (handler discipline, not the queue, bounds such
/// floods). Fuel left over proves the queue was drained completely.
pub fn drain(
    ui: &mut Ui,
    queue: &mut EventQueue,
    globals: &mut Vec<HandlerWrapper>,
    fuel: usize,
) -> (left: usize)
    requires
        old(ui).wf(),
    ensures
        final(ui).wf(),
        left > 0 ==> final(queue)@.len() == 0,
        fuel > 0 && single_dead_widget_entry(old(queue)@, *old(ui)) ==> (*final(ui) == *old(ui)
            && final(globals)@ == old(globals)@ && final(queue)@.len() == 0),
        old(ui).graph.dirty_spec() ==> final(ui).graph.dirty_spec(),
        fuel > 0 && single_redraw_entry(old(queue)@, old(globals)@)
            ==> final(ui).graph.dirty_spec(),
{
    let ghost quiet = single_dead_widget_entry(old(queue)@, *old(ui));
    let ghost rcase = single_redraw_entry(old(queue)@, old(globals)@);
    let mut left = fuel;
    while queue.len() > 0 && left > 0
        invariant
            ui.wf(),
            left <= fuel,
            old(ui).graph.dirty_spec() ==> ui.graph.dirty_spec(),
            quiet == single_dead_widget_entry(old(queue)@, *old(ui)),
            quiet ==> (*ui == *old(ui) && globals@ == old(globals)@ && ((queue@ == old(queue)@
                && left == fuel) || queue@.len() == 0)),
            rcase == single_redraw_entry(old(queue)@, old(globals)@),
            rcase ==> ((queue@ == old(queue)@ && globals@ == old(globals)@ && left == fuel && *ui
                == *old(ui)) || ui.graph.dirty_spec()),
        decreases left,
    {
        left = left - 1;
        let ghost qhead = queue@;
        let entry = queue.pop_front();
        let _ = dispatch_entry(ui, queue, globals, entry.address, &entry.event);
        proof {
            if rcase && qhead == old(queue)@ {
                assert(entry == old(queue)@[0]);
            }
        }
    }
    left
}


/// `v` clamped into the i64 range.
pub open spec fn clamp_i64(v: int) -> int {
    if v > i64::MAX {
        i64::MAX as int
    } else if v < i64::MIN {
        i64::MIN as int
    } else {
        v
    }
}

/// `a - b`, clamped into the i64 range.
pub fn sub_clamped(a: i64, b: i64) -> (r: i64)
    ensures
        r == clamp_i64(a - b),
{
    let d = (a as i128) - (b as i128);
    if d > i64::MAX as i128 {
        i64::MAX
    } else if d < i64::MIN as i128 {
        i64::MIN
    } else {
        d as i64
    }
}

/// The requested width and height of every node of a builder, in node
/// order.
fn collect_dims(builder: &WidgetBuilder) -> (r: Vec<(i64, i64)>)
    ensures
        r@.len() == builder.nodes@.len(),
        forall|k: int|
            0 <= k < r@.len() ==> #[trigger] r@[k] == (
            builder.nodes@[k].width,
            builder.nodes@[k].height,
            ),
{
    let mut r: Vec<(i64, i64)> = Vec::new();
    let mut k: usize = 0;
    while k < builder.nodes.len()
        invariant
            0 <= k <= builder.nodes@.len(),
            r@.len() == k,
            forall|j: int|
                0 <= j < k ==> #[trigger] r@[j] == (
                builder.nodes@[j].width,
                builder.nodes@[j].height,
                ),
        decreases builder.nodes@.len() - k,
    {
        let n = &builder.nodes[k];
        r.push((n.width, n.height));
        k = k + 1;
    }
    r
}

/// Membership in `s.take(i).push(s[i])` versus membership in `s.take(i)`.
proof fn take_push_contains(s: Seq<usize>, i: int, y: usize)
    requires
        0 <= i < s.len(),
    ensures
        s.take(i + 1).contains(y) <==> (s.take(i).contains(y) || s[i] == y),
{
    let sa = s.take(i + 1);
    let sb = s.take(i);
    assert(sa =~= sb.push(s[i]));
    if sa.contains(y) {
        let j = choose|j: int| 0 <= j < sa.len() && sa[j] == y;
        if j < i {
            assert(sb[j] == y);
            assert(sb.contains(y));
        }
    }
    if sb.contains(y) {
        let j = choose|j: int| 0 <= j < sb.len() && sb[j] == y;
        assert(sa[j] == y);
        assert(sa.contains(y));
    }
    if s[i] == y {
        assert(sa[i] == y);
        assert(sa.contains(y));
    }
}

} // verus!
