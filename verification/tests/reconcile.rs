use xilem::app::{App, AppLogic, AppReq, AppTask, PaintOutcome};
use xilem::context::Cx;
use xilem::event::{Event, EventBody};
use xilem::id::{Id, IdPath};
use xilem::view::{ViewNode, ViewState};
use xilem::wake::WakeQueue;
use xilem::widget::{Element, Pod, RawEvent, Size};

struct CounterLogic {
    count: u64,
}

impl AppLogic for CounterLogic {
    fn render(&mut self) -> ViewNode {
        ViewNode::Column {
            children: vec![
                ViewNode::Label { text: format!("{}", self.count) },
                ViewNode::Button { text: "+".to_string(), action: 1 },
            ],
        }
    }

    fn on_event(&mut self, action: u64) {
        if action == 1 {
            self.count += 1;
        }
    }
}

fn child_ids(state: &Option<ViewState>) -> Vec<u64> {
    match state {
        Some(ViewState::Column { children }) => children.iter().map(|c| c.id.raw).collect(),
        _ => panic!("expected a column state at the root"),
    }
}

fn scene_of(out: PaintOutcome) -> (Vec<String>, u32) {
    match out {
        PaintOutcome::Done { scene, restarts } => (scene, restarts),
        PaintOutcome::RunawayReentrancy => panic!("unexpected runaway re-entrancy"),
        PaintOutcome::IdSpaceExhausted => panic!("unexpected id-space exhaustion"),
    }
}

#[test]
fn counter_end_to_end() {
    let mut app = App::new(CounterLogic { count: 0 });
    app.size(Size { width: 400, height: 400 });
    let (scene, restarts) = scene_of(app.paint());
    assert_eq!(scene, vec!["0".to_string(), "+".to_string()]);
    assert_eq!(restarts, 0);

    let root = app.id.unwrap();
    let ids_before = child_ids(&app.state);
    assert_eq!(ids_before.len(), 2);
    let label_id = ids_before[0];
    let button_id = ids_before[1];

    let mut target: IdPath = Vec::new();
    target.push(Id { raw: root.raw });
    target.push(Id { raw: button_id });
    app.window_event(RawEvent::Press { target });

    assert_eq!(app.logic.count, 1);
    let (scene2, _) = scene_of(app.paint());
    assert_eq!(scene2, vec!["1".to_string(), "+".to_string()]);

    // identity stability: label and button keep their ids across the cycle
    assert_eq!(app.id.unwrap().raw, root.raw);
    let ids_after = child_ids(&app.state);
    assert_eq!(ids_after, vec![label_id, button_id]);
}

#[test]
fn identity_stable_across_many_rebuilds() {
    let mut app = App::new(CounterLogic { count: 0 });
    let _ = app.paint();
    let root = app.id.unwrap().raw;
    let ids = child_ids(&app.state);
    for _ in 0..5 {
        app.run_app_logic();
        assert_eq!(app.id.unwrap().raw, root);
        assert_eq!(child_ids(&app.state), ids);
    }
}

#[test]
fn rebuild_identical_view_reports_unchanged() {
    let mut cx = Cx::new();
    let prev = ViewNode::Label { text: "hi".to_string() };
    let (mut id, mut state, mut element) = prev.build(&mut cx);
    let id_before = id.raw;
    let next = ViewNode::Label { text: "hi".to_string() };
    let changed = next.rebuild(&mut cx, &prev, &mut id, &mut state, &mut element);
    assert!(!changed);
    assert!(cx.is_empty());
    assert_eq!(id.raw, id_before);
    match &element {
        Element::Label { text } => assert_eq!(text, "hi"),
        _ => panic!("element must stay a label"),
    }
}

#[test]
fn rebuild_changed_text_patches_in_place() {
    let mut cx = Cx::new();
    let prev = ViewNode::Label { text: "old".to_string() };
    let (mut id, mut state, mut element) = prev.build(&mut cx);
    let id_before = id.raw;
    let next = ViewNode::Label { text: "new".to_string() };
    let changed = next.rebuild(&mut cx, &prev, &mut id, &mut state, &mut element);
    assert!(changed);
    assert_eq!(id.raw, id_before);
    match &element {
        Element::Label { text } => assert_eq!(text, "new"),
        _ => panic!("element must stay a label"),
    }
}

#[test]
fn rebuild_kind_change_builds_fresh_triple() {
    let mut cx = Cx::new();
    let prev = ViewNode::Label { text: "hi".to_string() };
    let (mut id, mut state, mut element) = prev.build(&mut cx);
    let id_before = id.raw;
    let next = ViewNode::Button { text: "go".to_string(), action: 4 };
    let changed = next.rebuild(&mut cx, &prev, &mut id, &mut state, &mut element);
    assert!(changed);
    assert!(cx.is_empty());
    assert_ne!(id.raw, id_before);
    match &element {
        Element::Button { text } => assert_eq!(text, "go"),
        _ => panic!("element must be a fresh button"),
    }
}

struct SwitchLogic {
    use_button: bool,
}

impl AppLogic for SwitchLogic {
    fn render(&mut self) -> ViewNode {
        let child = if self.use_button {
            ViewNode::Button { text: "b".to_string(), action: 2 }
        } else {
            ViewNode::Label { text: "l".to_string() }
        };
        ViewNode::Column { children: vec![child] }
    }

    fn on_event(&mut self, _action: u64) {}
}

#[test]
fn type_change_tears_down_and_keeps_root_id() {
    let mut app = App::new(SwitchLogic { use_button: false });
    let _ = app.paint();
    let root = app.id.unwrap().raw;
    let old_child = child_ids(&app.state)[0];
    app.logic.use_button = true;
    app.run_app_logic();
    assert_eq!(app.id.unwrap().raw, root);
    let new_child = child_ids(&app.state)[0];
    assert_ne!(new_child, old_child);
    let (scene, _) = scene_of(app.paint());
    assert_eq!(scene, vec!["b".to_string()]);
}

#[test]
fn stale_event_is_silently_discarded() {
    let mut app = App::new(CounterLogic { count: 0 });
    let _ = app.paint();
    let root = app.id.unwrap();
    let mut bogus: IdPath = Vec::new();
    bogus.push(Id { raw: root.raw });
    bogus.push(Id { raw: 9999 });
    app.window_event(RawEvent::Press { target: bogus });
    assert_eq!(app.logic.count, 0);
    assert!(app.cx.is_empty());
    // direct dispatch of a stale path resolves to nothing
    let mut stale: IdPath = Vec::new();
    stale.push(Id { raw: root.raw });
    stale.push(Id { raw: 12345 });
    match (&app.view, &app.state) {
        (Some(v), Some(st)) => {
            assert_eq!(v.event(st, &stale, 1, &EventBody::Pressed), None);
        },
        _ => panic!("app must be built"),
    }
}

struct ObserverLogic {
    seen: Vec<u64>,
}

impl AppLogic for ObserverLogic {
    fn render(&mut self) -> ViewNode {
        ViewNode::Column {
            children: vec![
                ViewNode::Label { text: "x".to_string() },
                ViewNode::Observer { action: 7 },
            ],
        }
    }

    fn on_event(&mut self, action: u64) {
        self.seen.push(action);
    }
}

#[test]
fn pipeline_fixed_point_after_one_restart() {
    let mut app = App::new(ObserverLogic { seen: Vec::new() });
    app.size(Size { width: 100, height: 100 });
    let (scene, restarts) = scene_of(app.paint());
    // the observer notifies on the first update pass and not on the second:
    // exactly one restart, exactly one terminal paint
    assert_eq!(restarts, 1);
    assert_eq!(scene, vec!["x".to_string()]);
    assert_eq!(app.logic.seen, vec![7]);
    // a second cycle is already at the fixed point
    let (_, restarts2) = scene_of(app.paint());
    assert_eq!(restarts2, 0);
    assert_eq!(app.logic.seen, vec![7]);
}

#[test]
fn wake_async_routes_to_observer() {
    let mut app = App::new(ObserverLogic { seen: Vec::new() });
    let _ = app.paint();
    app.logic.seen.clear();
    let root = app.id.unwrap();
    let observer_id = child_ids(&app.state)[1];
    let queue = WakeQueue::new();
    let mut path: IdPath = Vec::new();
    path.push(Id { raw: root.raw });
    path.push(Id { raw: observer_id });
    assert!(queue.push_wake(path));
    app.wake_async(&queue);
    assert_eq!(app.logic.seen, vec![7]);
    assert_eq!(app.events.len(), 0);
    assert!(app.cx.is_empty());
}

struct GrowingObservers {
    n: u64,
}

impl AppLogic for GrowingObservers {
    fn render(&mut self) -> ViewNode {
        self.n += 1;
        let mut children = Vec::new();
        for k in 0..self.n {
            children.push(ViewNode::Observer { action: k });
        }
        ViewNode::Column { children }
    }

    fn on_event(&mut self, _action: u64) {}
}

#[test]
fn runaway_reentrancy_hits_the_bound() {
    let mut app = App::new(GrowingObservers { n: 0 });
    match app.paint() {
        PaintOutcome::RunawayReentrancy => {},
        _ => panic!("a view that enqueues on every pass must hit the restart bound"),
    }
}

#[test]
fn context_balanced_after_every_cycle() {
    let mut app = App::new(CounterLogic { count: 0 });
    assert!(app.cx.is_empty());
    let _ = app.paint();
    assert!(app.cx.is_empty());
    app.run_app_logic();
    assert!(app.cx.is_empty());
}

#[test]
fn measure_and_layout_negotiate_sizes() {
    let mut cx = Cx::new();
    let v = ViewNode::Column {
        children: vec![
            ViewNode::Label { text: "a".to_string() },
            ViewNode::Button { text: "+".to_string(), action: 1 },
        ],
    };
    let (id, _state, element) = v.build(&mut cx);
    let mut root_path: IdPath = Vec::new();
    root_path.push(id);
    let mut pod = Pod::new(element, root_path);
    assert_eq!(pod.measure(), Size { width: 100, height: 40 });
    pod.layout(Size { width: 50, height: 100 });
    assert_eq!(pod.size, Some(Size { width: 50, height: 40 }));
}

#[test]
fn app_task_render_and_return_protocol() {
    let mut task = AppTask::new(CounterLogic { count: 3 });
    assert!(!task.has_view());
    let resp = match task.handle(AppReq::Render) {
        Some(r) => r,
        None => panic!("a render request must get a response"),
    };
    assert!(resp.prev.is_none());
    assert!(resp.state.is_none());
    assert!(!task.has_view());
    let mut cx = Cx::new();
    let (_id, state, _element) = resp.view.build(&mut cx);
    assert!(task.handle(AppReq::ReturnView(resp.view, state)).is_none());
    assert!(task.has_view());
    let resp2 = task.handle(AppReq::Render).unwrap();
    assert!(resp2.prev.is_some());
    assert!(resp2.state.is_some());
    assert!(!task.has_view());
}

#[test]
fn app_task_dispatches_events_through_held_view() {
    let mut task = AppTask::new(CounterLogic { count: 3 });
    let resp = task.handle(AppReq::Render).unwrap();
    let mut cx = Cx::new();
    let (_id, state, _element) = resp.view.build(&mut cx);
    let button_id = match &state {
        ViewState::Column { children } => children[1].id,
        _ => panic!("expected a column state"),
    };
    task.handle(AppReq::ReturnView(resp.view, state));
    let mut path: IdPath = Vec::new();
    path.push(Id { raw: 0 });
    path.push(button_id);
    let press = Event::new(path, EventBody::Pressed);
    assert!(task.handle(AppReq::Events(vec![press])).is_none());
    assert_eq!(task.logic.count, 4);
    // a stale path is dropped without effect
    let mut stale: IdPath = Vec::new();
    stale.push(Id { raw: 0 });
    stale.push(Id { raw: 777 });
    task.handle(AppReq::Events(vec![Event::new(stale, EventBody::Pressed)]));
    assert_eq!(task.logic.count, 4);
}

#[test]
fn column_shrink_and_grow_keep_surviving_ids() {
    let mut cx = Cx::new();
    let prev = ViewNode::Column {
        children: vec![
            ViewNode::Label { text: "a".to_string() },
            ViewNode::Label { text: "b".to_string() },
            ViewNode::Label { text: "c".to_string() },
        ],
    };
    let (mut id, mut state, mut element) = prev.build(&mut cx);
    let ids3: Vec<u64> = match &state {
        ViewState::Column { children } => children.iter().map(|c| c.id.raw).collect(),
        _ => panic!("expected a column state"),
    };

    let shrunk = ViewNode::Column {
        children: vec![
            ViewNode::Label { text: "a".to_string() },
            ViewNode::Label { text: "b".to_string() },
        ],
    };
    let changed = shrunk.rebuild(&mut cx, &prev, &mut id, &mut state, &mut element);
    assert!(changed);
    let ids2: Vec<u64> = match &state {
        ViewState::Column { children } => children.iter().map(|c| c.id.raw).collect(),
        _ => panic!("expected a column state"),
    };
    assert_eq!(ids2, vec![ids3[0], ids3[1]]);

    let grown = ViewNode::Column {
        children: vec![
            ViewNode::Label { text: "a".to_string() },
            ViewNode::Label { text: "b".to_string() },
            ViewNode::Label { text: "d".to_string() },
        ],
    };
    let changed2 = grown.rebuild(&mut cx, &shrunk, &mut id, &mut state, &mut element);
    assert!(changed2);
    assert!(cx.is_empty());
    let ids_new: Vec<u64> = match &state {
        ViewState::Column { children } => children.iter().map(|c| c.id.raw).collect(),
        _ => panic!("expected a column state"),
    };
    assert_eq!(ids_new[0], ids3[0]);
    assert_eq!(ids_new[1], ids3[1]);
    assert!(!ids3.contains(&ids_new[2]));
    match &element {
        Element::Column { children } => assert_eq!(children.len(), 3),
        _ => panic!("element must stay a column"),
    }
}

#[test]
fn wake_async_builds_lazily() {
    let mut app = App::new(ObserverLogic { seen: Vec::new() });
    let queue = WakeQueue::new();
    queue.push_wake(vec![Id { raw: 42 }, Id { raw: 43 }]);
    app.wake_async(&queue);
    // the first wake builds the app; the stale path is dropped silently
    assert!(app.view.is_some());
    assert_eq!(app.events.len(), 0);
    assert!(app.cx.is_empty());
}

struct RootSwitchLogic {
    label: bool,
}

impl AppLogic for RootSwitchLogic {
    fn render(&mut self) -> ViewNode {
        if self.label {
            ViewNode::Label { text: "r".to_string() }
        } else {
            ViewNode::Button { text: "r".to_string(), action: 9 }
        }
    }

    fn on_event(&mut self, _action: u64) {}
}

#[test]
fn root_kind_change_gets_fresh_id_and_marks_root() {
    let mut app = App::new(RootSwitchLogic { label: true });
    let _ = app.paint();
    let old_root = app.id.unwrap().raw;
    app.logic.label = false;
    app.run_app_logic();
    // teardown at the root: fresh id, fresh element, marked for update
    assert_ne!(app.id.unwrap().raw, old_root);
    match &app.root_pod {
        Some(p) => {
            assert!(p.requested_update);
            assert!(matches!(p.element, Element::Button { .. }));
        },
        None => panic!("app must stay built"),
    }
    let (scene, _) = scene_of(app.paint());
    assert_eq!(scene, vec!["r".to_string()]);
}
