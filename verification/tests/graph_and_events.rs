use limn::events::{Event, EventAddress, EventQueue, MovedSliderWidgetEvent, RawInput, WidgetDrag};
use limn::events::DragPhase;
use limn::graph::{WidgetBuilder, WidgetGraph};
use limn::handler::{HandlerState, HandlerWrapper};
use limn::slider::{SliderBuilder, SliderValue};
use limn::solver::{Edge, SolverError, Strength};
use limn::ui::{dispatch_entry, drain, get_default_event_handlers, Ui};

#[test]
fn preorder_is_ancestors_first() {
    let mut g = WidgetGraph::new();
    let r = g.set_root(WidgetBuilder::new());
    let a = g.add_child(r, WidgetBuilder::new());
    let b = g.add_child(r, WidgetBuilder::new());
    let c = g.add_child(a, WidgetBuilder::new());
    assert_eq!(g.widgets_under(r), vec![r, a, c, b]);
    assert_eq!(g.widgets_under(a), vec![a, c]);
}

#[test]
fn remove_widget_removes_subtree() {
    let mut g = WidgetGraph::new();
    let r = g.set_root(WidgetBuilder::new());
    let a = g.add_child(r, WidgetBuilder::new());
    let b = g.add_child(r, WidgetBuilder::new());
    let c = g.add_child(a, WidgetBuilder::new());
    g.remove_widget(a);
    assert!(g.get_widget(a).is_none());
    assert!(g.get_widget(c).is_none());
    assert!(g.get_widget(b).is_some());
    assert_eq!(g.widgets_under(r), vec![r, b]);
    // Removing a dangling id is a no-op.
    g.remove_widget(a);
    assert_eq!(g.widgets_under(r), vec![r, b]);
    // Ids are never reused: a new child gets a fresh id.
    let d = g.add_child(r, WidgetBuilder::new());
    assert_ne!(d, a);
    assert_ne!(d, c);
    assert_eq!(g.widgets_under(r), vec![r, b, d]);
}

#[test]
fn subtree_builder_inserts_whole_tree() {
    let mut child = WidgetBuilder::new();
    child.dimensions(30, 30);
    let mut root = WidgetBuilder::new();
    root.dimensions(200, 30);
    root.add_child(child);
    let mut g = WidgetGraph::new();
    let r = g.set_root(root);
    let list = g.widgets_under(r);
    assert_eq!(list.len(), 2);
    let handle = list[1];
    let w = g.get_widget(handle).unwrap();
    assert_eq!(w.parent, Some(r));
    assert_eq!(w.bounds.right, 30);
    assert_eq!(g.get_root().children, vec![handle]);
}

#[test]
fn dead_widget_event_is_a_no_op() {
    let mut ui = Ui::new();
    let mut queue = EventQueue::new();
    let mut globals = get_default_event_handlers();
    queue.push(EventAddress::Widget(42), Event::MouseWheel { delta: 1 });
    let left = drain(&mut ui, &mut queue, &mut globals, 1000);
    assert!(left > 0);
    assert_eq!(queue.len(), 0);
    assert_eq!(ui.value_changes.len(), 0);
    assert!(!ui.graph.is_dirty());
}

#[test]
fn redraw_request_marks_the_graph() {
    let mut ui = Ui::new();
    let mut queue = EventQueue::new();
    let mut globals = get_default_event_handlers();
    assert!(!ui.graph.is_dirty());
    queue.push(EventAddress::Ui, Event::Redraw(limn::events::RedrawEvent));
    let left = drain(&mut ui, &mut queue, &mut globals, 1000);
    assert!(left > 0);
    assert!(ui.graph.is_dirty());
}

#[test]
fn queue_is_fifo() {
    let mut q = EventQueue::new();
    q.push(EventAddress::Ui, Event::MouseWheel { delta: 1 });
    q.push(EventAddress::Ui, Event::MouseWheel { delta: 2 });
    let first = q.pop_front();
    let second = q.pop_front();
    assert_eq!(first.event, Event::MouseWheel { delta: 1 });
    assert_eq!(second.event, Event::MouseWheel { delta: 2 });
    assert_eq!(q.len(), 0);
}

#[test]
fn handle_input_routes_mouse_and_keyboard() {
    let mut ui = Ui::new();
    let mut queue = EventQueue::new();
    let root = ui.set_root(WidgetBuilder::new(), &mut queue);
    let mut queue = EventQueue::new();
    ui.handle_input(RawInput::MouseMoved { x: 3, y: 4 }, &mut queue);
    assert_eq!(queue.len(), 2);
    let e1 = queue.pop_front();
    let e2 = queue.pop_front();
    assert_eq!(e1.address, EventAddress::SubTree(root));
    assert_eq!(e1.event, Event::MouseMoved { x: 3, y: 4 });
    assert_eq!(e2.address, EventAddress::Ui);
    ui.handle_input(
        RawInput::KeyboardInput { state: limn::events::ElementState::Pressed, scan_code: 17, key_code: None },
        &mut queue,
    );
    assert_eq!(queue.len(), 1);
    let e3 = queue.pop_front();
    assert_eq!(e3.address, EventAddress::Ui);
}

#[test]
fn handler_wrapper_matches_one_kind() {
    let w = HandlerWrapper::new(HandlerState::Redraw);
    assert!(w.handles(limn::events::EventKind::RedrawKind));
    assert!(!w.handles(limn::events::EventKind::InputKind));
}

#[test]
fn edit_variable_probe_sequence() {
    let mut ui = Ui::new();
    let mut queue = EventQueue::new();
    let root = ui.set_root(WidgetBuilder::new(), &mut queue);
    // Suggesting before the edit variable exists fails.
    assert_eq!(
        ui.solver.suggest_value(root, Edge::Left, 42, &mut queue),
        Err(SolverError::UnknownEditVariable)
    );
    assert!(!ui.solver.has_edit_variable(root, Edge::Left));
    // Adding it once succeeds; twice reports the duplicate.
    assert_eq!(ui.solver.add_edit_variable(root, Edge::Left, Strength::Strong), Ok(()));
    assert!(ui.solver.has_edit_variable(root, Edge::Left));
    assert_eq!(
        ui.solver.add_edit_variable(root, Edge::Left, Strength::Strong),
        Err(SolverError::DuplicateEditVariable)
    );
    // After the add, a suggestion succeeds and the solve moves the value.
    assert_eq!(ui.solver.suggest_value(root, Edge::Left, 42, &mut queue), Ok(()));
    assert_eq!(ui.solver.resolved_bounds(root).left, 42);
}

#[test]
fn removal_clears_solver_state() {
    let mut ui = Ui::new();
    let mut queue = EventQueue::new();
    let root = ui.set_root(WidgetBuilder::new(), &mut queue);
    let child = ui.add_child(root, WidgetBuilder::new(), &mut queue);
    assert_eq!(ui.solver.add_edit_variable(child, Edge::Left, Strength::Strong), Ok(()));
    ui.remove_widget(child);
    assert!(!ui.solver.is_registered(child));
    assert!(!ui.solver.has_edit_variable(child, Edge::Left));
    // A fresh widget registers cleanly, with no stale edit state.
    let again = ui.add_child(root, WidgetBuilder::new(), &mut queue);
    assert!(!ui.solver.has_edit_variable(again, Edge::Left));
    assert_eq!(ui.solver.add_edit_variable(again, Edge::Left, Strength::Strong), Ok(()));
}

#[test]
fn layout_changed_updates_bounds_and_redraws() {
    let mut ui = Ui::new();
    let mut queue = EventQueue::new();
    let root = ui.set_root(WidgetBuilder::new(), &mut queue);
    ui.solver.add_edit_variable(root, Edge::Left, Strength::Strong).unwrap();
    ui.solver.suggest_value(root, Edge::Left, 7, &mut queue).unwrap();
    let mut queue2 = EventQueue::new();
    ui.layout_changed(&limn::events::LayoutChanged(root), &mut queue2);
    assert_eq!(ui.graph.get_bounds(root).left, 7);
    assert!(ui.graph.is_dirty());
    assert_eq!(queue2.len(), 1);
    let e = queue2.pop_front();
    assert_eq!(e.address, EventAddress::Ui);
    assert_eq!(e.event, Event::Redraw(limn::events::RedrawEvent));
}

#[test]
fn slider_drag_reports_value() {
    let mut ui = Ui::new();
    let mut queue = EventQueue::new();
    let mut globals = get_default_event_handlers();
    let mut sb = SliderBuilder::new();
    sb.on_val_changed();
    let slider = ui.set_root(sb.widget, &mut queue);
    let handle = ui.graph.get_widget(slider).unwrap().children[0];
    // The track is 200 wide with a 30 wide handle at x = 0.
    assert_eq!(ui.graph.get_bounds(slider).right, 200);
    assert_eq!(ui.graph.get_bounds(handle).right, 30);
    let mut queue = EventQueue::new();
    queue.push(
        EventAddress::Widget(handle),
        Event::Drag(WidgetDrag { phase: DragPhase::Start, x: 0, y: 10 }),
    );
    let left = drain(&mut ui, &mut queue, &mut globals, 100000);
    assert!(left > 0);
    assert_eq!(ui.value_changes.len(), 0);
    queue.push(
        EventAddress::Widget(handle),
        Event::Drag(WidgetDrag { phase: DragPhase::Moved, x: 85, y: 10 }),
    );
    let left = drain(&mut ui, &mut queue, &mut globals, 100000);
    assert!(left > 0);
    // The callback fired exactly once, with 85 / (200 - 30).
    assert_eq!(ui.value_changes, vec![SliderValue { num: 85, den: 170 }]);
    assert_eq!(ui.value_changes[0].num as f64 / ui.value_changes[0].den as f64, 0.5);
    // The drag pinned the handle's left edge in the solver.
    assert!(ui.solver.has_edit_variable(handle, Edge::Left));
    assert_eq!(ui.solver.resolved_bounds(handle).left, 85);
}

#[test]
fn moved_slider_event_is_marked_handled() {
    let mut ui = Ui::new();
    let mut queue = EventQueue::new();
    let mut globals = get_default_event_handlers();
    let mut sb = SliderBuilder::new();
    sb.on_val_changed();
    let slider = ui.set_root(sb.widget, &mut queue);
    let mut queue = EventQueue::new();
    let handled = dispatch_entry(
        &mut ui,
        &mut queue,
        &mut globals,
        EventAddress::Widget(slider),
        &Event::MovedSlider(MovedSliderWidgetEvent { slider_left: 85, slider_right: 115 }),
    );
    assert!(handled);
    assert_eq!(ui.value_changes, vec![SliderValue { num: 85, den: 170 }]);
}

#[test]
fn resize_request_matches_root_size() {
    let mut ui = Ui::new();
    let mut queue = EventQueue::new();
    let mut b = WidgetBuilder::new();
    b.dimensions(640, 480);
    let _root = ui.set_root(b, &mut queue);
    assert_eq!(ui.resize_window_to_fit(), (640, 480));
}

#[test]
fn pt_px_conversions() {
    assert_eq!(limn::pt_to_px(12), 16);
    assert_eq!(limn::px_to_pt(16), 12);
    assert_eq!(limn::pt_to_px(0), 0);
}
