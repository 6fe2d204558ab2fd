use vstd::prelude::*;

use crate::context::Cx;
use crate::event::{Event, EventBody};
use crate::id::IdPath;
use crate::id::Id;
use crate::view::{
    ids_below, lemma_ids_stable_refl, lemma_paths_skeleton, lemma_paths_updated,
    lemma_reflects_skeleton, lemma_reflects_updated, paths_ok, reflects, same_view, wf_state,
    ChildState, ViewNode, ViewState,
};
use crate::view::ids_stable;
use crate::wake::WakeQueue;
use crate::widget::{notify_specs, scene_of, Pod, RawEvent, Size, WidgetState};
use crate::widget::{lemma_pods_match_refl, pods_match};
use crate::widget::{elements_match, laid_out, prepared, unnotified};
use crate::widget::{lemma_laid_out_kept, lemma_notify_skeleton, lemma_updated_no_notify};

verus! {

/// The application-logic collaborator: it renders a fresh view of the
/// application data once per cycle and applies the mutation each action
/// dispatched from the view tree demands. Never invoked concurrently with
/// itself.
pub trait AppLogic: Sized {
    /// Produces a fresh declarative view of the current application data.
    fn render(&mut self) -> ViewNode;

    /// Applies the mutation that `action` stands for.
    fn on_event(&mut self, action: u64);
}

/// Bound on update/prepare-paint pipeline restarts within one paint cycle:
/// an explicit, documented choice — exceeding it is treated as a fatal
/// diagnostic, never an unbounded implicit retry.
pub const RESTART_BOUND: u32 = 64;

/// Outcome of one full paint cycle.
pub enum PaintOutcome {
    /// The pipeline reached its fixed point: the terminal pass produced no
    /// new events and painted `scene`, after `restarts` restarts.
    Done { scene: Vec<String>, restarts: u32 },
    /// The pipeline kept enqueueing new events past [`RESTART_BOUND`]
    /// without reaching a fixed point: runaway re-entrancy.
    RunawayReentrancy,
    /// The id allocator cannot serve another tree of the rendered size;
    /// unreachable for any view tree that fits in memory.
    IdSpaceExhausted,
}

/// Identity stability at driver level: wherever the newly rendered view
/// keeps the kind and tree position of the previous one, the node keeps
/// its id.
pub open spec fn root_ids_stable<L: AppLogic>(pre: App<L>, post: App<L>) -> bool {
    match (pre.view, post.view, pre.id, post.id, pre.state, post.state) {
        (Some(pv), Some(nv), Some(oid), Some(nid), Some(os), Some(ns)) => ids_stable(
            pv,
            nv,
            ChildState { id: oid, state: os },
            ChildState { id: nid, state: ns },
        ),
        _ => false,
    }
}

/// Diff correctness at driver level: rendering a view identical to the
/// previous one leaves the retained root pod unchanged as data — content,
/// flags and cached geometry alike.
pub open spec fn diff_no_change<L: AppLogic>(pre: App<L>, post: App<L>) -> bool {
    match (pre.view, post.view, pre.root_pod, post.root_pod) {
        (Some(pv), Some(nv), Some(pp), Some(np)) => same_view(nv, pv) ==> pods_match(pp, np),
        _ => false,
    }
}

/// A structural change at the root marks the root pod for another update
/// pass.
pub open spec fn kind_change_marks_root<L: AppLogic>(pre: App<L>, post: App<L>) -> bool {
    match (pre.view, post.view, post.root_pod) {
        (Some(pv), Some(nv), Some(np)) => nv.kind() != pv.kind() ==> np.requested_update,
        _ => false,
    }
}

/// Teardown at driver level: a structural change at the root yields a
/// fresh identity and an element as a fresh build leaves it.
pub open spec fn kind_change_fresh<L: AppLogic>(pre: App<L>, post: App<L>) -> bool {
    match (pre.view, post.view, pre.id, post.id, post.root_pod) {
        (Some(pv), Some(nv), Some(oid), Some(nid), Some(np)) => nv.kind() != pv.kind() ==> nid
            != oid && unnotified(np.element),
        _ => false,
    }
}

/// Any observable change in the retained root content marks the root pod
/// for another update pass: how rebuild's changed signal reaches the
/// pipeline.
pub open spec fn change_marks_root<L: AppLogic>(pre: App<L>, post: App<L>) -> bool {
    match (pre.root_pod, post.root_pod) {
        (Some(pp), Some(np)) => !elements_match(pp.element, np.element) ==> np.requested_update,
        _ => false,
    }
}

/// The driver: owns the view tree, its persisted state, the retained pod
/// tree and the application logic, and runs one full cycle per mutation
/// event — drain events, dispatch, re-render, rebuild, repeat until
/// stable, then paint.
pub struct App<L: AppLogic> {
    pub logic: L,
    pub view: Option<ViewNode>,
    pub id: Option<crate::id::Id>,
    pub state: Option<ViewState>,
    pub root_pod: Option<Pod>,
    pub events: Vec<Event>,
    pub root_state: WidgetState,
    pub size: Size,
    pub cx: Cx,
    /// Set when the id allocator can no longer serve a rendered tree:
    /// fatal, and unreachable for trees that fit in memory.
    pub failed: bool,
}

impl<L: AppLogic> App<L> {
    /// Built: the lazy first build has run.
    pub open spec fn built(self) -> bool {
        self.view is Some
    }

    /// The driver's invariant: the context is balanced outside any walk,
    /// the retained tree renders the retained view, every live id lies
    /// below the allocator's next id, and every pod records the id path
    /// the identity tree gives it (so event routing by path resolves to
    /// the node the state tree names).
    pub open spec fn wf(self) -> bool {
        &&& self.cx.path().len() == 0
        &&& self.cx.next_id() >= 1
        &&& match (self.view, self.id, self.state, self.root_pod) {
            (Some(v), Some(i), Some(s), Some(p)) => reflects(v, p.element) && wf_state(v, s)
                && ids_below(i, s, self.cx.next_id()) && p.id_path@ == Seq::<Id>::empty().push(i)
                && paths_ok(p.element, s, Seq::<Id>::empty().push(i)),
            (None, None, None, None) => true,
            _ => false,
        }
    }

    /// Already at the pipeline's fixed point: built, no event pending, no
    /// observer still owing its notification. From here a paint cycle
    /// terminates deterministically, with no restart and no call into
    /// application logic.
    pub open spec fn quiescent(self) -> bool {
        &&& self.built()
        &&& self.events@.len() == 0
        &&& match self.root_pod {
            Some(p) => notify_specs(p) == Seq::<(Seq<Id>, crate::event::EventBody)>::empty(),
            None => false,
        }
    }

    pub fn new(logic: L) -> (app: App<L>)
        ensures
            app.wf(),
            !app.built(),
            !app.failed,
            app.events@.len() == 0,
            app.size == (Size { width: 0, height: 0 }),
            !app.root_state.request_update,
            app.logic == logic,
    {
        App {
            logic,
            view: None,
            id: None,
            state: None,
            root_pod: None,
            events: Vec::new(),
            root_state: WidgetState::default(),
            size: Size { width: 0, height: 0 },
            cx: Cx::new(),
            failed: false,
        }
    }

    /// Records the window's viewport size: the root layout proposal.
    pub fn size(&mut self, size: Size)
        requires
            old(self).wf(),
        ensures
            final(self).wf(),
            final(self).size == size,
            final(self).built() == old(self).built(),
            final(self).view == old(self).view,
            final(self).id == old(self).id,
            final(self).state == old(self).state,
            final(self).root_pod == old(self).root_pod,
            final(self).root_state == old(self).root_state,
            final(self).cx == old(self).cx,
            final(self).logic == old(self).logic,
            final(self).events@ == old(self).events@,
            final(self).failed == old(self).failed,
    {
        self.size = size;
    }

    /// Lazy first build: renders the first view and builds identity,
    /// state and element for it, exactly once.
    pub fn ensure_app(&mut self)
        requires
            old(self).wf(),
        ensures
            final(self).wf(),
            old(self).built() ==> *final(self) == *old(self),
            !final(self).built() ==> final(self).failed,
            !old(self).failed && final(self).failed ==> !final(self).built(),
            final(self).events@ == old(self).events@,
            final(self).size == old(self).size,
    {
        if self.view.is_none() {
            let view = self.logic.render();
            let fits = match view.count_nodes() {
                Some(n) => self.cx.headroom(n),
                None => false,
            };
            if fits {
                proof {
                    assert(self.cx.path() =~= Seq::<Id>::empty());
                }
                let (id, state, element) = view.build(&mut self.cx);
                let mut root_path: IdPath = Vec::new();
                root_path.push(id);
                proof {
                    assert(root_path@ =~= Seq::<Id>::empty().push(id));
                }
                let root_pod = Pod::new(element, root_path);
                self.view = Some(view);
                self.id = Some(id);
                self.state = Some(state);
                self.root_pod = Some(root_pod);
            } else {
                self.failed = true;
            }
        }
    }

    /// One re-render pass: drains all pending events in order, dispatches
    /// each through the view tree (the first id segment names the driver
    /// itself and is dropped), invokes application logic exactly once for
    /// a fresh view, rebuilds against the previous view, and marks the
    /// root pod for another update pass if anything changed. The context
    /// must be balanced afterwards — that check is discharged statically,
    /// so the fatal imbalance fault is unreachable here.
    pub fn run_app_logic(&mut self)
        requires
            old(self).wf(),
            old(self).built(),
        ensures
            final(self).wf(),
            final(self).built(),
            final(self).events@.len() == 0,
            final(self).cx.path().len() == 0,
            final(self).size == old(self).size,
            root_ids_stable(*old(self), *final(self)),
            diff_no_change(*old(self), *final(self)),
            kind_change_marks_root(*old(self), *final(self)),
            kind_change_fresh(*old(self), *final(self)),
            change_marks_root(*old(self), *final(self)),
            old(self).root_state.request_update ==> final(self).root_state.request_update,
            final(self).root_state.request_update ==> old(self).root_state.request_update || (
            match final(self).root_pod {
                Some(np) => np.requested_update,
                None => false,
            }),
            !old(self).failed && final(self).failed ==> final(self).view == old(self).view,
    {
        let mut evs: Vec<Event> = Vec::new();
        core::mem::swap(&mut self.events, &mut evs);
        let mut i: usize = 0;
        while i < evs.len()
            invariant
                self.view == old(self).view,
                self.state == old(self).state,
                self.id == old(self).id,
                self.root_pod == old(self).root_pod,
                self.cx == old(self).cx,
                self.failed == old(self).failed,
                self.size == old(self).size,
                self.root_state == old(self).root_state,
                self.events@.len() == 0,
            decreases evs.len() - i,
        {
            let e = &evs[i];
            if e.id_path.len() >= 1 {
                match (&self.view, &self.state) {
                    (Some(v), Some(st)) => {
                        let routed = v.event(st, &e.id_path, 1, &e.body);
                        if let Some(action) = routed {
                            self.logic.on_event(action);
                        }
                    },
                    _ => {},
                }
            }
            i = i + 1;
        }
        let view = self.logic.render();
        let fits = match view.count_nodes() {
            Some(n) => self.cx.headroom(n),
            None => false,
        };
        if !fits {
            self.failed = true;
            proof {
                match (&self.view, &self.id, &self.state, &self.root_pod) {
                    (Some(v), Some(i0), Some(st), Some(p)) => {
                        lemma_ids_stable_refl(*v, ChildState { id: *i0, state: *st });
                        lemma_pods_match_refl(*p);
                    },
                    _ => {
                        assert(false);
                    },
                }
            }
            return ;
        }
        let mut view_opt: Option<ViewNode> = None;
        core::mem::swap(&mut self.view, &mut view_opt);
        let mut id_opt: Option<crate::id::Id> = None;
        core::mem::swap(&mut self.id, &mut id_opt);
        let mut state_opt: Option<ViewState> = None;
        core::mem::swap(&mut self.state, &mut state_opt);
        let mut pod_opt: Option<Pod> = None;
        core::mem::swap(&mut self.root_pod, &mut pod_opt);
        match (view_opt, id_opt, state_opt, pod_opt) {
            (Some(prev), Some(mut idv), Some(mut statev), Some(pod)) => {
                let Pod {
                    id_path: _,
                    element: mut elem,
                    requested_update: rreq,
                    size: rsize,
                    visible: rvis,
                } = pod;
                proof {
                    assert(self.cx.path() =~= Seq::<Id>::empty());
                }
                let changed = view.rebuild(&mut self.cx, &prev, &mut idv, &mut statev, &mut elem);
                let balanced = self.cx.is_empty();
                assert(balanced);
                let mut root_path: IdPath = Vec::new();
                root_path.push(idv);
                proof {
                    assert(root_path@ =~= Seq::<Id>::empty().push(idv));
                }
                let mut root_pod = Pod {
                    id_path: root_path,
                    element: elem,
                    requested_update: rreq,
                    size: rsize,
                    visible: rvis,
                };
                if changed {
                    root_pod.request_update();
                    self.root_state.request_update = true;
                }
                self.view = Some(view);
                self.id = Some(idv);
                self.state = Some(statev);
                self.root_pod = Some(root_pod);
            },
            _ => {
                proof {
                    assert(false);
                }
            },
        }
    }

    /// Normalizes one platform input into a semantic event via the widget
    /// tree, then runs the re-render pass, which carries the cycle's
    /// guarantees: identity stability, diff correctness and change
    /// marking.
    pub fn window_event(&mut self, event: RawEvent)
        requires
            old(self).wf(),
        ensures
            final(self).wf(),
            final(self).built() || final(self).failed,
            final(self).built() ==> final(self).events@.len() == 0,
            old(self).built() ==> root_ids_stable(*old(self), *final(self)),
            old(self).built() ==> diff_no_change(*old(self), *final(self)),
            old(self).built() ==> kind_change_marks_root(*old(self), *final(self)),
            old(self).built() ==> kind_change_fresh(*old(self), *final(self)),
            old(self).built() ==> change_marks_root(*old(self), *final(self)),
    {
        self.ensure_app();
        if self.view.is_none() {
            return ;
        }
        match &self.root_pod {
            Some(p) => p.event(&event, &mut self.events),
            None => {},
        }
        self.run_app_logic();
    }

    /// Ensures the app is built, then drains the wake queue, turning each
    /// pending id path into an async-wake event, and runs the re-render
    /// pass — how completed asynchronous work re-enters the view tree —
    /// which carries the cycle's guarantees.
    pub fn wake_async(&mut self, queue: &WakeQueue)
        requires
            old(self).wf(),
        ensures
            final(self).wf(),
            final(self).built() || final(self).failed,
            final(self).built() ==> final(self).events@.len() == 0,
            old(self).built() ==> root_ids_stable(*old(self), *final(self)),
            old(self).built() ==> diff_no_change(*old(self), *final(self)),
            old(self).built() ==> kind_change_marks_root(*old(self), *final(self)),
            old(self).built() ==> kind_change_fresh(*old(self), *final(self)),
            old(self).built() ==> change_marks_root(*old(self), *final(self)),
    {
        self.ensure_app();
        if self.view.is_none() {
            return ;
        }
        let mut paths = queue.take();
        while paths.len() > 0
            invariant
                self.wf(),
                self.built(),
                old(self).built() ==> self.view == old(self).view && self.id == old(self).id
                    && self.state == old(self).state && self.root_pod == old(self).root_pod,
            decreases paths.len(),
        {
            let p = paths.remove(0);
            self.events.push(Event::new(p, EventBody::AsyncWake));
        }
        self.run_app_logic();
    }

    /// One full paint cycle: ensure built, then run update → measure →
    /// layout, restarting through the re-render pass while widget passes
    /// enqueue events, then prepare-paint (which may restart the same
    /// way), and paint only on the terminal pass that produced no events.
    #[verifier::loop_isolation(false)]
    pub fn paint(&mut self) -> (out: PaintOutcome)
        requires
            old(self).wf(),
        ensures
            final(self).wf(),
            (out matches PaintOutcome::Done { scene, restarts } ==> restarts <= RESTART_BOUND
                && final(self).built() && final(self).events@.len() == 0 && (
            match final(self).root_pod {
                Some(p) => scene@.map_values(|t: String| t@) == scene_of(p.element),
                None => false,
            })),
            (out is IdSpaceExhausted ==> final(self).failed),
            old(self).quiescent() ==> (out matches PaintOutcome::Done { scene: _, restarts: r }
                && r == 0),
            (out matches PaintOutcome::Done { scene: _, restarts: _ } ==> final(self).quiescent()
                && (match final(self).root_pod {
                Some(p) => laid_out(p, final(self).size) && (p.size matches Some(vis)
                    && prepared(p, vis)) && !p.requested_update,
                None => false,
            })),
    {
        self.ensure_app();
        if self.view.is_none() {
            return PaintOutcome::IdSpaceExhausted;
        }
        let mut restarts: u32 = 0;
        while restarts <= RESTART_BOUND
            invariant
                self.wf(),
                self.built(),
                old(self).quiescent() ==> restarts == 0 && self.events@.len() == 0
                    && self.root_pod == old(self).root_pod,
            decreases RESTART_BOUND + 1 - restarts,
        {
            let mut pod_opt: Option<Pod> = None;
            core::mem::swap(&mut self.root_pod, &mut pod_opt);
            let mut pod = match pod_opt {
                Some(p) => p,
                None => {
                    proof {
                        assert(false);
                    }
                    return PaintOutcome::IdSpaceExhausted;
                },
            };
            let ghost pod0 = pod;
            let ghost evs0 = self.events@;
            pod.update(&mut self.events);
            self.root_state.request_update = false;
            proof {
                match (&self.view, &self.state) {
                    (Some(v), Some(st)) => {
                        lemma_reflects_updated(*v, pod0, pod);
                        lemma_paths_updated(pod0, pod, *st, Seq::<Id>::empty().push(self.id->0));
                    },
                    _ => assert(false),
                }
                if old(self).quiescent() {
                    assert(crate::event::event_views(self.events@) =~= crate::event::event_views(
                        evs0,
                    ));
                    assert(crate::event::event_views(self.events@).len() == self.events@.len());
                    assert(self.events@.len() == 0);
                }
            }
            let _requested = pod.measure();
            let ghost pod1 = pod;
            pod.layout(self.size);
            proof {
                match (&self.view, &self.state) {
                    (Some(v), Some(st)) => {
                        lemma_reflects_skeleton(*v, pod1, pod);
                        lemma_paths_skeleton(pod1, pod, *st, Seq::<Id>::empty().push(self.id->0));
                    },
                    _ => assert(false),
                }
            }
            if self.events.len() > 0 {
                self.root_pod = Some(pod);
                self.run_app_logic();
                if restarts == RESTART_BOUND {
                    return PaintOutcome::RunawayReentrancy;
                }
                restarts = restarts + 1;
                continue ;
            }
            let visible = match pod.size {
                Some(s) => s,
                None => Size { width: 0, height: 0 },
            };
            let ghost pod2 = pod;
            pod.prepare_paint(visible);
            proof {
                match (&self.view, &self.state) {
                    (Some(v), Some(st)) => {
                        lemma_reflects_skeleton(*v, pod2, pod);
                        lemma_paths_skeleton(pod2, pod, *st, Seq::<Id>::empty().push(self.id->0));
                    },
                    _ => assert(false),
                }
            }
            if self.events.len() > 0 {
                self.root_pod = Some(pod);
                self.run_app_logic();
                if restarts == RESTART_BOUND {
                    return PaintOutcome::RunawayReentrancy;
                }
                restarts = restarts + 1;
                continue ;
            }
            let mut scene: Vec<String> = Vec::new();
            pod.paint(&mut scene);
            proof {
                lemma_updated_no_notify(pod0, pod1);
                lemma_notify_skeleton(pod1, pod2);
                lemma_notify_skeleton(pod2, pod);
                lemma_laid_out_kept(pod2, pod, self.size);
            }
            self.root_pod = Some(pod);
            return PaintOutcome::Done { scene, restarts };
        }
        PaintOutcome::RunawayReentrancy
    }
}

/// A message sent from the thread that owns platform resources to the
/// task-isolated driver.
pub enum AppReq {
    Events(Vec<Event>),
    Render,
    ReturnView(ViewNode, ViewState),
}

/// A response to a render request: the borrowed previous view/state pair
/// plus the freshly rendered view, for the caller to diff on another
/// thread. The caller must hand the pair back via [`AppReq::ReturnView`]
/// before the next render, or it stays absent for good.
pub struct RenderResponse {
    pub prev: Option<ViewNode>,
    pub view: ViewNode,
    pub state: Option<ViewState>,
}

/// The task-isolated driver: the same decisions as [`App`], hosted behind
/// a request/response channel whose transport the embedder owns, so view
/// diffing can run off the thread that owns platform resources.
pub struct AppTask<L: AppLogic> {
    pub logic: L,
    pub view: Option<ViewNode>,
    pub state: Option<ViewState>,
}

impl<L: AppLogic> AppTask<L> {
    pub fn new(logic: L) -> (t: AppTask<L>)
        ensures
            t.view is None,
            t.state is None,
    {
        AppTask { logic, view: None, state: None }
    }

    /// Whether the task currently holds a view/state pair (it does not
    /// while a render response is outstanding).
    pub fn has_view(&self) -> (r: bool)
        ensures
            r == (self.view is Some && self.state is Some),
    {
        self.view.is_some() && self.state.is_some()
    }

    /// Handles one request and returns the response to send back, if the
    /// request demands one. Events are dispatched in order through the
    /// held view tree; Render snapshots (takes) the held view and state
    /// and renders a fresh view; ReturnView restores the borrowed pair.
    pub fn handle(&mut self, req: AppReq) -> (resp: Option<RenderResponse>)
        requires
            req is Events ==> old(self).view is Some && old(self).state is Some,
        ensures
            (match req {
                AppReq::Events(_) => resp is None && final(self).view == old(self).view
                    && final(self).state == old(self).state,
                AppReq::Render => resp matches Some(r) && r.prev == old(self).view && r.state
                    == old(self).state && final(self).view is None && final(self).state is None,
                AppReq::ReturnView(v, s) => resp is None && final(self).view == Some(v)
                    && final(self).state == Some(s),
            }),
    {
        match req {
            AppReq::Events(events) => {
                let mut i: usize = 0;
                while i < events.len()
                    invariant
                        self.view == old(self).view,
                        self.state == old(self).state,
                    decreases events.len() - i,
                {
                    let e = &events[i];
                    if e.id_path.len() >= 1 {
                        match (&self.view, &self.state) {
                            (Some(v), Some(st)) => {
                                let routed = v.event(st, &e.id_path, 1, &e.body);
                                if let Some(action) = routed {
                                    self.logic.on_event(action);
                                }
                            },
                            _ => {},
                        }
                    }
                    i = i + 1;
                }
                None
            },
            AppReq::Render => {
                let mut prev: Option<ViewNode> = None;
                core::mem::swap(&mut self.view, &mut prev);
                let mut st: Option<ViewState> = None;
                core::mem::swap(&mut self.state, &mut st);
                let view = self.logic.render();
                Some(RenderResponse { prev, view, state: st })
            },
            AppReq::ReturnView(v, s) => {
                self.view = Some(v);
                self.state = Some(s);
                None
            },
        }
    }
}

} // verus!
