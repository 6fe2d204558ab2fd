use vstd::prelude::*;

use crate::event::{event_views, Event, EventBody};
use crate::id::{clone_id_path, id_path_eq, Id, IdPath};

verus! {

/// A size in integral device units. Layout geometry algorithms themselves
/// are out of scope here; only the size-negotiation protocol is modelled.
#[derive(Clone, Copy, PartialEq, Eq, Structural, Debug)]
pub struct Size {
    pub width: u32,
    pub height: u32,
}

pub open spec fn min_dim(a: u32, b: u32) -> u32 {
    if a <= b {
        a
    } else {
        b
    }
}

pub open spec fn max_dim(a: u32, b: u32) -> u32 {
    if a >= b {
        a
    } else {
        b
    }
}

pub open spec fn sat_add(a: u32, b: u32) -> u32 {
    if a + b > u32::MAX {
        u32::MAX
    } else {
        (a + b) as u32
    }
}

/// Componentwise minimum: the size granted under a proposal.
pub open spec fn min2(a: Size, b: Size) -> Size {
    Size { width: min_dim(a.width, b.width), height: min_dim(a.height, b.height) }
}

pub fn min_size(a: Size, b: Size) -> (r: Size)
    ensures
        r == min2(a, b),
{
    Size {
        width: if a.width <= b.width {
            a.width
        } else {
            b.width
        },
        height: if a.height <= b.height {
            a.height
        } else {
            b.height
        },
    }
}

/// The retained, mutable, renderable counterpart to a view node, created on
/// build and mutated in place on rebuild.
pub enum Element {
    Label { text: String },
    Button { text: String },
    /// Reacts to the update pass: the first pass after it is built it
    /// enqueues one notification event targeted at itself, forcing the
    /// pipeline to restart after events drain and the view tree rebuilds
    /// (the mechanism behind layout observation and lazy content).
    Observer { action: u64, notified: bool },
    Column { children: Vec<Pod> },
}

/// Wraps exactly one element plus transient per-cycle bookkeeping: the
/// node's id path, the needs-update flag, and cached geometry.
pub struct Pod {
    pub id_path: IdPath,
    pub element: Element,
    pub requested_update: bool,
    /// Final size assigned by the layout pass.
    pub size: Option<Size>,
    /// Visible bounds recorded by the prepare-paint pass.
    pub visible: Option<Size>,
}

/// Aggregate, bottom-up-propagated state for a subtree: whether any
/// descendant requested another update pass.
pub struct WidgetState {
    pub request_update: bool,
}

impl Default for WidgetState {
    fn default() -> (w: WidgetState)
        ensures
            !w.request_update,
    {
        WidgetState { request_update: false }
    }
}

/// Everything of two pods except cached geometry: id path, flags, and the
/// rendered content of the wrapped elements, recursively.
pub open spec fn same_skeleton(a: Pod, b: Pod) -> bool
    decreases a,
{
    &&& b.id_path@ == a.id_path@
    &&& b.requested_update == a.requested_update
    &&& match (a.element, b.element) {
        (Element::Label { text: t1 }, Element::Label { text: t2 }) => t1@ == t2@,
        (Element::Button { text: t1 }, Element::Button { text: t2 }) => t1@ == t2@,
        (
            Element::Observer { action: a1, notified: n1 },
            Element::Observer { action: a2, notified: n2 },
        ) => a1 == a2 && n1 == n2,
        (Element::Column { children: c1 }, Element::Column { children: c2 }) => c1.len()
            == c2.len() && (forall|i: int|
            0 <= i < c1.len() ==> same_skeleton(#[trigger] c1@[i], c2@[i])),
        _ => false,
    }
}

/// Requested size of an element: leaves have fixed intrinsic sizes (the
/// actual measurement math belongs to the widgets, not to this core), a
/// column is as wide as its widest child and as tall as all of them.
pub open spec fn measure_spec(e: Element) -> Size
    decreases e,
{
    match e {
        Element::Label { .. } => Size { width: 100, height: 20 },
        Element::Button { .. } => Size { width: 100, height: 20 },
        Element::Observer { .. } => Size { width: 0, height: 0 },
        Element::Column { children } => column_size(children@),
    }
}

pub open spec fn column_size(s: Seq<Pod>) -> Size
    decreases s,
{
    if s.len() == 0 {
        Size { width: 0, height: 0 }
    } else {
        let rest = column_size(s.drop_last());
        let last = measure_spec(s.last().element);
        Size { width: max_dim(rest.width, last.width), height: sat_add(rest.height, last.height) }
    }
}

/// The pod tree after an update pass over `a`: flags cleared, every
/// observer notified, content and geometry untouched.
pub open spec fn updated_pod(a: Pod, b: Pod) -> bool
    decreases a,
{
    &&& b.id_path@ == a.id_path@
    &&& !b.requested_update
    &&& b.size == a.size
    &&& b.visible == a.visible
    &&& match (a.element, b.element) {
        (Element::Label { text: t1 }, Element::Label { text: t2 }) => t1@ == t2@,
        (Element::Button { text: t1 }, Element::Button { text: t2 }) => t1@ == t2@,
        (
            Element::Observer { action: a1, notified: _ },
            Element::Observer { action: a2, notified: n2 },
        ) => a1 == a2 && n2,
        (Element::Column { children: c1 }, Element::Column { children: c2 }) => c1.len()
            == c2.len() && (forall|i: int|
            0 <= i < c1.len() ==> updated_pod(#[trigger] c1@[i], c2@[i])),
        _ => false,
    }
}

/// The notification events an update pass over `p` appends, in tree order.
pub open spec fn notify_specs(p: Pod) -> Seq<(Seq<Id>, EventBody)>
    decreases p,
{
    match p.element {
        Element::Observer { notified, .. } => if !notified {
            seq![(p.id_path@, EventBody::Notify)]
        } else {
            Seq::empty()
        },
        Element::Column { children } => notify_seq(children@),
        _ => Seq::empty(),
    }
}

pub open spec fn notify_seq(s: Seq<Pod>) -> Seq<(Seq<Id>, EventBody)>
    decreases s,
{
    if s.len() == 0 {
        Seq::empty()
    } else {
        notify_seq(s.drop_last()) + notify_specs(s.last())
    }
}


/// After an update pass, a further update pass appends no notifications:
/// the observer mechanism reaches its fixed point in one pass, so only a
/// rebuild that introduces fresh observers can restart the pipeline.
pub proof fn lemma_updated_no_notify(a: Pod, b: Pod)
    requires
        updated_pod(a, b),
    ensures
        notify_specs(b) == Seq::<(Seq<Id>, EventBody)>::empty(),
    decreases a,
{
    match (a.element, b.element) {
        (Element::Column { children: c1 }, Element::Column { children: c2 }) => {
            lemma_no_notify_seq(c1@, c2@);
        },
        _ => {},
    }
}

proof fn lemma_no_notify_seq(s1: Seq<Pod>, s2: Seq<Pod>)
    requires
        s1.len() == s2.len(),
        forall|k: int| 0 <= k < s1.len() ==> updated_pod(s1[k], #[trigger] s2[k]),
    ensures
        notify_seq(s2) == Seq::<(Seq<Id>, EventBody)>::empty(),
    decreases s1,
{
    if s1.len() > 0 {
        assert(forall|k: int|
            0 <= k < s1.drop_last().len() ==> updated_pod(
                s1.drop_last()[k],
                #[trigger] s2.drop_last()[k],
            ));
        lemma_no_notify_seq(s1.drop_last(), s2.drop_last());
        lemma_updated_no_notify(s1.last(), s2.last());
        assert(notify_seq(s2) =~= Seq::<(Seq<Id>, EventBody)>::empty());
    } else {
        assert(notify_seq(s2) =~= Seq::<(Seq<Id>, EventBody)>::empty());
    }
}

/// Sizes assigned by a layout pass under `proposed`: each node receives the
/// minimum of its requested size and its proposal; a column proposes its
/// own granted size to its children.
pub open spec fn laid_out(p: Pod, proposed: Size) -> bool
    decreases p,
{
    &&& p.size == Some(min2(measure_spec(p.element), proposed))
    &&& match p.element {
        Element::Column { children } => forall|i: int|
            0 <= i < children.len() ==> laid_out(
                #[trigger] children@[i],
                min2(measure_spec(p.element), proposed),
            ),
        _ => true,
    }
}

/// Visible bounds recorded by a prepare-paint pass with viewport `vis`.
pub open spec fn prepared(p: Pod, vis: Size) -> bool
    decreases p,
{
    &&& p.visible == Some(vis)
    &&& match p.element {
        Element::Column { children } => forall|i: int|
            0 <= i < children.len() ==> prepared(#[trigger] children@[i], vis),
        _ => true,
    }
}

/// The terminal, side-effect-free rendering of an element: the texts it
/// draws, in tree order.
pub open spec fn scene_of(e: Element) -> Seq<Seq<char>>
    decreases e,
{
    match e {
        Element::Label { text } => seq![text@],
        Element::Button { text } => seq![text@],
        Element::Observer { .. } => Seq::empty(),
        Element::Column { children } => scene_seq(children@),
    }
}

pub open spec fn scene_seq(s: Seq<Pod>) -> Seq<Seq<char>>
    decreases s,
{
    if s.len() == 0 {
        Seq::empty()
    } else {
        scene_seq(s.drop_last()) + scene_of(s.last().element)
    }
}


/// Equality of two elements as data: rendered content, bookkeeping and id
/// paths, ignoring heap identity. What a cycle that reports no change must
/// preserve.
pub open spec fn elements_match(a: Element, b: Element) -> bool
    decreases a,
{
    match (a, b) {
        (Element::Label { text: t1 }, Element::Label { text: t2 }) => t1@ == t2@,
        (Element::Button { text: t1 }, Element::Button { text: t2 }) => t1@ == t2@,
        (
            Element::Observer { action: a1, notified: n1 },
            Element::Observer { action: a2, notified: n2 },
        ) => a1 == a2 && n1 == n2,
        (Element::Column { children: c1 }, Element::Column { children: c2 }) => c1.len()
            == c2.len() && (forall|i: int|
            0 <= i < c1.len() ==> pods_match(#[trigger] c1@[i], c2@[i])),
        _ => false,
    }
}

pub open spec fn pods_match(a: Pod, b: Pod) -> bool
    decreases a,
{
    &&& a.id_path@ == b.id_path@
    &&& a.requested_update == b.requested_update
    &&& a.size == b.size
    &&& a.visible == b.visible
    &&& elements_match(a.element, b.element)
}


/// No observer at or below this element has notified yet: what a fresh
/// build produces, and what makes the first update pass after a teardown
/// fire its notifications.
pub open spec fn unnotified(e: Element) -> bool
    decreases e,
{
    match e {
        Element::Observer { notified, .. } => !notified,
        Element::Column { children } => forall|i: int|
            0 <= i < children.len() ==> unnotified((#[trigger] children@[i]).element),
        _ => true,
    }
}

/// `pods_match` is reflexive: a pod matches itself.
pub proof fn lemma_pods_match_refl(p: Pod)
    ensures
        pods_match(p, p),
    decreases p,
{
    lemma_elements_match_refl(p.element);
}

/// `elements_match` is reflexive.
pub proof fn lemma_elements_match_refl(e: Element)
    ensures
        elements_match(e, e),
    decreases e,
{
    match e {
        Element::Column { children } => {
            assert forall|i: int| 0 <= i < children@.len() implies pods_match(
                #[trigger] children@[i],
                children@[i],
            ) by {
                lemma_pods_match_refl(children@[i]);
            }
        },
        _ => {},
    }
}


/// Final sizes preserved at every node: what the prepare-paint pass keeps,
/// so the terminal tree is still laid out as the layout pass left it.
pub open spec fn sizes_kept(a: Pod, b: Pod) -> bool
    decreases a,
{
    b.size == a.size && match (a.element, b.element) {
        (Element::Column { children: c1 }, Element::Column { children: c2 }) => c1.len()
            == c2.len() && (forall|i: int|
            0 <= i < c1.len() ==> sizes_kept(#[trigger] c1@[i], c2@[i])),
        _ => true,
    }
}

/// Content-equal pods owe the same notifications: skeleton-preserving
/// passes (measure, layout, prepare-paint) do not change what an update
/// pass would enqueue.
pub proof fn lemma_notify_skeleton(a: Pod, b: Pod)
    requires
        same_skeleton(a, b),
    ensures
        notify_specs(b) == notify_specs(a),
    decreases a,
{
    match (a.element, b.element) {
        (Element::Column { children: c1 }, Element::Column { children: c2 }) => {
            lemma_notify_skeleton_seq(c1@, c2@);
        },
        _ => {},
    }
}

proof fn lemma_notify_skeleton_seq(s1: Seq<Pod>, s2: Seq<Pod>)
    requires
        s1.len() == s2.len(),
        forall|k: int| 0 <= k < s1.len() ==> same_skeleton(s1[k], #[trigger] s2[k]),
    ensures
        notify_seq(s2) == notify_seq(s1),
    decreases s1,
{
    if s1.len() > 0 {
        assert(forall|k: int|
            0 <= k < s1.drop_last().len() ==> same_skeleton(
                s1.drop_last()[k],
                #[trigger] s2.drop_last()[k],
            ));
        lemma_notify_skeleton_seq(s1.drop_last(), s2.drop_last());
        lemma_notify_skeleton(s1.last(), s2.last());
    }
}

/// Layout results survive a skeleton- and size-preserving pass.
pub proof fn lemma_laid_out_kept(a: Pod, b: Pod, proposed: Size)
    requires
        laid_out(a, proposed),
        same_skeleton(a, b),
        sizes_kept(a, b),
    ensures
        laid_out(b, proposed),
    decreases a,
{
    lemma_skeleton_measure(a, b);
    match (a.element, b.element) {
        (Element::Column { children: c1 }, Element::Column { children: c2 }) => {
            let granted = min2(measure_spec(a.element), proposed);
            assert forall|i: int| 0 <= i < c2@.len() implies laid_out(
                #[trigger] c2@[i],
                min2(measure_spec(b.element), proposed),
            ) by {
                lemma_laid_out_kept(c1@[i], c2@[i], granted);
            }
        },
        _ => {},
    }
}

/// Whether a press aimed at `target` resolves to a live button.
pub open spec fn button_hit(p: Pod, target: Seq<Id>) -> bool
    decreases p,
{
    (p.id_path@ == target && p.element is Button) || match p.element {
        Element::Column { children } => exists|i: int|
            0 <= i < children.len() && button_hit(#[trigger] children@[i], target),
        _ => false,
    }
}

/// Normalized platform input, delivered by the windowing layer.
#[derive(Clone, Debug)]
pub enum RawEvent {
    /// A pointer press already resolved to the id path it lands on.
    Press { target: IdPath },
}

/// The semantic events that routing one raw input through `p` enqueues.
pub open spec fn press_specs(p: Pod, raw: RawEvent) -> Seq<(Seq<Id>, EventBody)> {
    match raw {
        RawEvent::Press { target } => if button_hit(p, target@) {
            seq![(target@, EventBody::Pressed)]
        } else {
            Seq::empty()
        },
    }
}

proof fn lemma_event_views_push(s: Seq<Event>, e: Event)
    ensures
        event_views(s.push(e)) == event_views(s).push((e.id_path@, e.body)),
{
    assert(event_views(s.push(e)) =~= event_views(s).push((e.id_path@, e.body)));
}

/// The update pass over an owned pod: clears flags, fires observers.
#[verifier::loop_isolation(false)]
fn update_pod(p: Pod, events: &mut Vec<Event>) -> (r: Pod)
    ensures
        updated_pod(p, r),
        event_views(final(events)@) == event_views(old(events)@) + notify_specs(p),
    decreases p,
{
    let Pod { id_path, element, requested_update: _, size, visible } = p;
    match element {
        Element::Label { text } => {
            proof {
                assert(event_views(events@) =~= event_views(events@) + notify_specs(p));
            }
            Pod { id_path, element: Element::Label { text }, requested_update: false, size, visible }
        },
        Element::Button { text } => {
            proof {
                assert(event_views(events@) =~= event_views(events@) + notify_specs(p));
            }
            Pod {
                id_path,
                element: Element::Button { text },
                requested_update: false,
                size,
                visible,
            }
        },
        Element::Observer { action, notified } => {
            if !notified {
                let e = Event { id_path: clone_id_path(&id_path), body: EventBody::Notify };
                proof {
                    lemma_event_views_push(events@, e);
                }
                events.push(e);
                proof {
                    assert(event_views(events@) =~= event_views(old(events)@) + notify_specs(p));
                }
            } else {
                proof {
                    assert(event_views(events@) =~= event_views(events@) + notify_specs(p));
                }
            }
            Pod {
                id_path,
                element: Element::Observer { action, notified: true },
                requested_update: false,
                size,
                visible,
            }
        },
        Element::Column { children } => {
            let ghost oc = children;
            let ghost all = children@;
            let mut rest = children;
            let mut out: Vec<Pod> = Vec::new();
            proof {
                assert(event_views(events@) =~= event_views(events@) + notify_seq(
                    all.take(0),
                ));
            }
            while rest.len() > 0
                invariant
                    out@.len() + rest@.len() == all.len(),
                    rest@ == all.skip(out@.len() as int),
                    forall|k: int|
                        0 <= k < out@.len() ==> updated_pod(all[k], #[trigger] out@[k]),
                    event_views(events@) == event_views(old(events)@) + notify_seq(
                        all.take(out@.len() as int),
                    ),
                decreases rest@.len(),
            {
                let ghost k = out@.len() as int;
                let c = rest.remove(0);
                proof {
                    assert(c == all[k]);
                    assert(rest@ =~= all.skip(k + 1));
                    assert(p.element == Element::Column { children: oc });
                    assert(decreases_to!(p => p.element));
                    assert(decreases_to!(p.element => oc));
                    assert(decreases_to!(oc => oc@));
                    assert(decreases_to!(oc@ => oc@[k]));
                    assert(decreases_to!(p => c));
                }
                let ghost evs_before = events@;
                let c2 = update_pod(c, events);
                out.push(c2);
                proof {
                    let t = all.take(k + 1);
                    assert(t.drop_last() =~= all.take(k));
                    assert(t.last() == all[k]);
                    assert(notify_seq(t) == notify_seq(all.take(k)) + notify_specs(all[k]));
                    assert(event_views(events@) =~= event_views(old(events)@) + notify_seq(
                        all.take(out@.len() as int),
                    ));
                }
            }
            proof {
                assert(all.take(all.len() as int) =~= all);
            }
            let r = Pod {
                id_path,
                element: Element::Column { children: out },
                requested_update: false,
                size,
                visible,
            };
            proof {
                assert(updated_pod(p, r));
            }
            r
        },
    }
}

/// The layout pass over an owned pod.
#[verifier::loop_isolation(false)]
fn layout_pod(p: Pod, proposed: Size) -> (r: Pod)
    ensures
        same_skeleton(p, r),
        laid_out(r, proposed),
    decreases p,
{
    let m = p.measure();
    let granted = min_size(m, proposed);
    let Pod { id_path, element, requested_update, size: _, visible } = p;
    match element {
        Element::Label { text } => Pod {
            id_path,
            element: Element::Label { text },
            requested_update,
            size: Some(granted),
            visible,
        },
        Element::Button { text } => Pod {
            id_path,
            element: Element::Button { text },
            requested_update,
            size: Some(granted),
            visible,
        },
        Element::Observer { action, notified } => Pod {
            id_path,
            element: Element::Observer { action, notified },
            requested_update,
            size: Some(granted),
            visible,
        },
        Element::Column { children } => {
            let ghost oc = children;
            let ghost all = children@;
            let mut rest = children;
            let mut out: Vec<Pod> = Vec::new();
            while rest.len() > 0
                invariant
                    out@.len() + rest@.len() == all.len(),
                    rest@ == all.skip(out@.len() as int),
                    forall|k: int|
                        0 <= k < out@.len() ==> same_skeleton(all[k], #[trigger] out@[k])
                            && laid_out(out@[k], granted),
                decreases rest@.len(),
            {
                let ghost k = out@.len() as int;
                let c = rest.remove(0);
                proof {
                    assert(c == all[k]);
                    assert(rest@ =~= all.skip(k + 1));
                    assert(p.element == Element::Column { children: oc });
                    assert(decreases_to!(p => p.element));
                    assert(decreases_to!(p.element => oc));
                    assert(decreases_to!(oc => oc@));
                    assert(decreases_to!(oc@ => oc@[k]));
                    assert(decreases_to!(p => c));
                }
                let c2 = layout_pod(c, granted);
                out.push(c2);
            }
            let r = Pod {
                id_path,
                element: Element::Column { children: out },
                requested_update,
                size: Some(granted),
                visible,
            };
            proof {
                assert(same_skeleton(p, r));
                lemma_skeleton_measure_seq(all, out@);
                assert(measure_spec(r.element) == measure_spec(p.element));
                assert(laid_out(r, proposed));
            }
            r
        },
    }
}

/// Content-equal pods request equal sizes: measurement reads rendered
/// content only, never cached geometry.
proof fn lemma_skeleton_measure(a: Pod, b: Pod)
    requires
        same_skeleton(a, b),
    ensures
        measure_spec(b.element) == measure_spec(a.element),
    decreases a,
{
    match (a.element, b.element) {
        (Element::Column { children: c1 }, Element::Column { children: c2 }) => {
            lemma_skeleton_measure_seq(c1@, c2@);
        },
        _ => {},
    }
}

proof fn lemma_skeleton_measure_seq(s1: Seq<Pod>, s2: Seq<Pod>)
    requires
        s1.len() == s2.len(),
        forall|k: int| 0 <= k < s1.len() ==> same_skeleton(s1[k], #[trigger] s2[k]),
    ensures
        column_size(s2) == column_size(s1),
    decreases s1,
{
    if s1.len() > 0 {
        assert(s1.drop_last().len() == s2.drop_last().len());
        assert(forall|k: int|
            0 <= k < s1.drop_last().len() ==> same_skeleton(
                s1.drop_last()[k],
                #[trigger] s2.drop_last()[k],
            ));
        lemma_skeleton_measure_seq(s1.drop_last(), s2.drop_last());
        lemma_skeleton_measure(s1.last(), s2.last());
    }
}

/// The prepare-paint pass over an owned pod: records the visible bounds so
/// widgets can react to them (the hook behind virtualized content).
#[verifier::loop_isolation(false)]
fn prepare_pod(p: Pod, vis: Size) -> (r: Pod)
    ensures
        same_skeleton(p, r),
        prepared(r, vis),
        sizes_kept(p, r),
    decreases p,
{
    let Pod { id_path, element, requested_update, size, visible: _ } = p;
    match element {
        Element::Label { text } => Pod {
            id_path,
            element: Element::Label { text },
            requested_update,
            size,
            visible: Some(vis),
        },
        Element::Button { text } => Pod {
            id_path,
            element: Element::Button { text },
            requested_update,
            size,
            visible: Some(vis),
        },
        Element::Observer { action, notified } => Pod {
            id_path,
            element: Element::Observer { action, notified },
            requested_update,
            size,
            visible: Some(vis),
        },
        Element::Column { children } => {
            let ghost oc = children;
            let ghost all = children@;
            let mut rest = children;
            let mut out: Vec<Pod> = Vec::new();
            while rest.len() > 0
                invariant
                    out@.len() + rest@.len() == all.len(),
                    rest@ == all.skip(out@.len() as int),
                    forall|k: int|
                        0 <= k < out@.len() ==> same_skeleton(all[k], #[trigger] out@[k])
                            && prepared(out@[k], vis) && sizes_kept(all[k], out@[k]),
                decreases rest@.len(),
            {
                let ghost k = out@.len() as int;
                let c = rest.remove(0);
                proof {
                    assert(c == all[k]);
                    assert(rest@ =~= all.skip(k + 1));
                    assert(p.element == Element::Column { children: oc });
                    assert(decreases_to!(p => p.element));
                    assert(decreases_to!(p.element => oc));
                    assert(decreases_to!(oc => oc@));
                    assert(decreases_to!(oc@ => oc@[k]));
                    assert(decreases_to!(p => c));
                }
                let c2 = prepare_pod(c, vis);
                out.push(c2);
            }
            let r = Pod {
                id_path,
                element: Element::Column { children: out },
                requested_update,
                size,
                visible: Some(vis),
            };
            proof {
                assert(same_skeleton(p, r));
            }
            r
        },
    }
}

impl Pod {
    /// Wraps a freshly built element.
    pub fn new(element: Element, id_path: IdPath) -> (p: Pod)
        ensures
            p.element == element,
            p.id_path == id_path,
            !p.requested_update,
            p.size is None,
            p.visible is None,
    {
        Pod { id_path, element, requested_update: false, size: None, visible: None }
    }

    /// Marks this pod as needing another update pass.
    pub fn request_update(&mut self)
        ensures
            final(self).requested_update,
            final(self).element == old(self).element,
            final(self).id_path == old(self).id_path,
            final(self).size == old(self).size,
            final(self).visible == old(self).visible,
    {
        self.requested_update = true;
    }

    /// Update pass: pushes down pending changes, clears the needs-update
    /// flags, and lets observers enqueue the events that force a pipeline
    /// restart. Appends exactly the notifications of not-yet-notified
    /// observers, in tree order.
    pub fn update(&mut self, events: &mut Vec<Event>)
        ensures
            updated_pod(*old(self), *final(self)),
            event_views(final(events)@) == event_views(old(events)@) + notify_specs(*old(self)),
    {
        let mut tmp = Pod {
            id_path: Vec::new(),
            element: Element::Label { text: String::new() },
            requested_update: false,
            size: None,
            visible: None,
        };
        core::mem::swap(self, &mut tmp);
        *self = update_pod(tmp, events);
    }

    /// Measure pass: the size this subtree requests, computed bottom-up
    /// from rendered content.
    #[verifier::loop_isolation(false)]
    pub fn measure(&self) -> (s: Size)
        ensures
            s == measure_spec(self.element),
        decreases self,
    {
        match &self.element {
            Element::Label { .. } => Size { width: 100, height: 20 },
            Element::Button { .. } => Size { width: 100, height: 20 },
            Element::Observer { .. } => Size { width: 0, height: 0 },
            Element::Column { children } => {
                let mut acc = Size { width: 0, height: 0 };
                let mut i: usize = 0;
                while i < children.len()
                    invariant
                        i <= children.len(),
                        acc == column_size(children@.take(i as int)),
                    decreases children.len() - i,
                {
                    proof {
                        assert(self.element == Element::Column { children: *children });
                        assert(decreases_to!(*self => self.element));
                        assert(decreases_to!(self.element => *children));
                        assert(decreases_to!(*children => children@));
                        assert(decreases_to!(children@ => children@[i as int]));
                        assert(decreases_to!(*self => children@[i as int]));
                    }
                    let cs = children[i].measure();
                    acc = Size {
                        width: if acc.width >= cs.width {
                            acc.width
                        } else {
                            cs.width
                        },
                        height: if acc.height > u32::MAX - cs.height {
                            u32::MAX
                        } else {
                            acc.height + cs.height
                        },
                    };
                    i = i + 1;
                    proof {
                        let t = children@.take(i as int);
                        assert(t.drop_last() =~= children@.take(i - 1));
                        assert(t.last() == children@[i - 1]);
                    }
                }
                proof {
                    assert(children@.take(children@.len() as int) =~= children@);
                }
                acc
            },
        }
    }

    /// Layout pass: assigns final sizes top-down given the parent's
    /// proposal (at the root, the window's viewport size).
    pub fn layout(&mut self, proposed: Size)
        ensures
            same_skeleton(*old(self), *final(self)),
            laid_out(*final(self), proposed),
    {
        let mut tmp = Pod {
            id_path: Vec::new(),
            element: Element::Label { text: String::new() },
            requested_update: false,
            size: None,
            visible: None,
        };
        core::mem::swap(self, &mut tmp);
        *self = layout_pod(tmp, proposed);
    }

    /// Prepare-paint pass: lets widgets react to their now-final visible
    /// bounds before the terminal paint.
    pub fn prepare_paint(&mut self, visible: Size)
        ensures
            same_skeleton(*old(self), *final(self)),
            prepared(*final(self), visible),
            sizes_kept(*old(self), *final(self)),
    {
        let mut tmp = Pod {
            id_path: Vec::new(),
            element: Element::Label { text: String::new() },
            requested_update: false,
            size: None,
            visible: None,
        };
        core::mem::swap(self, &mut tmp);
        *self = prepare_pod(tmp, visible);
    }

    /// Terminal paint: appends the texts this subtree draws, in tree
    /// order, and never re-enqueues events.
    #[verifier::loop_isolation(false)]
    pub fn paint(&self, out: &mut Vec<String>)
        ensures
            final(out)@.map_values(|s: String| s@) == old(out)@.map_values(|s: String| s@)
                + scene_of(self.element),
        decreases self,
    {
        match &self.element {
            Element::Label { text } => {
                out.push(text.clone());
                proof {
                    assert(out@.map_values(|s: String| s@) =~= old(out)@.map_values(
                        |s: String| s@,
                    ) + scene_of(self.element));
                }
            },
            Element::Button { text } => {
                out.push(text.clone());
                proof {
                    assert(out@.map_values(|s: String| s@) =~= old(out)@.map_values(
                        |s: String| s@,
                    ) + scene_of(self.element));
                }
            },
            Element::Observer { .. } => {
                proof {
                    assert(out@.map_values(|s: String| s@) =~= old(out)@.map_values(
                        |s: String| s@,
                    ) + scene_of(self.element));
                }
            },
            Element::Column { children } => {
                let mut i: usize = 0;
                while i < children.len()
                    invariant
                        i <= children.len(),
                        out@.map_values(|s: String| s@) == old(out)@.map_values(|s: String| s@)
                            + scene_seq(children@.take(i as int)),
                    decreases children.len() - i,
                {
                    proof {
                        assert(self.element == Element::Column { children: *children });
                        assert(decreases_to!(*self => self.element));
                        assert(decreases_to!(self.element => *children));
                        assert(decreases_to!(*children => children@));
                        assert(decreases_to!(children@ => children@[i as int]));
                        assert(decreases_to!(*self => children@[i as int]));
                    }
                    children[i].paint(out);
                    i = i + 1;
                    proof {
                        let t = children@.take(i as int);
                        assert(t.drop_last() =~= children@.take(i - 1));
                        assert(t.last() == children@[i - 1]);
                        assert(out@.map_values(|s: String| s@) =~= old(out)@.map_values(
                            |s: String| s@,
                        ) + scene_seq(children@.take(i as int)));
                    }
                }
                proof {
                    assert(children@.take(children@.len() as int) =~= children@);
                }
            },
        }
    }

    /// Whether a press aimed at `target` lands on a live button in this
    /// subtree.
    #[verifier::loop_isolation(false)]
    pub fn hits_button(&self, target: &IdPath) -> (r: bool)
        ensures
            r == button_hit(*self, target@),
        decreases self,
    {
        match &self.element {
            Element::Button { .. } => id_path_eq(&self.id_path, target),
            Element::Column { children } => {
                let mut found = false;
                let mut i: usize = 0;
                while i < children.len()
                    invariant
                        i <= children.len(),
                        found == exists|k: int|
                            0 <= k < i && button_hit(#[trigger] children@[k], target@),
                    decreases children.len() - i,
                {
                    proof {
                        assert(self.element == Element::Column { children: *children });
                        assert(decreases_to!(*self => self.element));
                        assert(decreases_to!(self.element => *children));
                        assert(decreases_to!(*children => children@));
                        assert(decreases_to!(children@ => children@[i as int]));
                        assert(decreases_to!(*self => children@[i as int]));
                    }
                    if children[i].hits_button(target) {
                        found = true;
                    }
                    i = i + 1;
                }
                found
            },
            _ => false,
        }
    }

    /// Routes one normalized platform input through the widget tree,
    /// enqueueing the semantic event it resolves to, if any.
    pub fn event(&self, raw: &RawEvent, events: &mut Vec<Event>)
        ensures
            event_views(final(events)@) == event_views(old(events)@) + press_specs(*self, *raw),
    {
        match raw {
            RawEvent::Press { target } => {
                if self.hits_button(target) {
                    let e = Event { id_path: clone_id_path(target), body: EventBody::Pressed };
                    proof {
                        lemma_event_views_push(events@, e);
                    }
                    events.push(e);
                    proof {
                        assert(event_views(events@) =~= event_views(old(events)@) + press_specs(
                            *self,
                            *raw,
                        ));
                    }
                } else {
                    proof {
                        assert(event_views(events@) =~= event_views(events@) + press_specs(
                            *self,
                            *raw,
                        ));
                    }
                }
            },
        }
    }
}

} // verus!
