use vstd::prelude::*;

use crate::context::Cx;
use crate::event::EventBody;
use crate::id::{Id, IdPath};
use crate::widget::{elements_match, pods_match, Element, Pod};

verus! {

/// Immutable description of one UI subtree, produced fresh each cycle by
/// application logic. Reconciliation is driven by tree position plus type
/// identity: same-typed siblings diff positionally, so persisted state can
/// jump across reordered same-typed siblings — an accepted, documented
/// tradeoff of positional diffing, not a defect.
#[derive(Debug)]
pub enum ViewNode {
    Label { text: String },
    Button { text: String, action: u64 },
    /// Declares an observer widget: it notifies once after each fresh
    /// build, and routes notification and async-wake events to `action`.
    Observer { action: u64 },
    Column { children: Vec<ViewNode> },
}

/// The structural type of a view node: two nodes at the same tree position
/// are the same logical node iff their kinds agree.
#[derive(PartialEq, Eq, Structural, Clone, Copy, Debug)]
pub enum Kind {
    Label,
    Button,
    Observer,
    Column,
}

/// Per-view state persisted across rebuild cycles; created on build,
/// mutated in place on rebuild, dropped when the owning view leaves the
/// tree.
#[derive(Debug)]
pub enum ViewState {
    Leaf,
    Column { children: Vec<ChildState> },
}

/// The persisted identity and state of one child of a column.
#[derive(Debug)]
pub struct ChildState {
    pub id: Id,
    pub state: ViewState,
}

impl ViewNode {
    pub open spec fn kind(self) -> Kind {
        match self {
            ViewNode::Label { .. } => Kind::Label,
            ViewNode::Button { .. } => Kind::Button,
            ViewNode::Observer { .. } => Kind::Observer,
            ViewNode::Column { .. } => Kind::Column,
        }
    }

    /// Number of nodes in this subtree: the number of ids a fresh build
    /// allocates.
    pub open spec fn node_count(self) -> nat
        decreases self,
    {
        match self {
            ViewNode::Column { children } => 1 + count_seq(children@),
            _ => 1,
        }
    }
}

pub open spec fn count_seq(s: Seq<ViewNode>) -> nat
    decreases s,
{
    if s.len() == 0 {
        0
    } else {
        count_seq(s.drop_last()) + s.last().node_count()
    }
}

/// Content equality of two view descriptions.
pub open spec fn same_view(a: ViewNode, b: ViewNode) -> bool
    decreases a,
{
    match (a, b) {
        (ViewNode::Label { text: t1 }, ViewNode::Label { text: t2 }) => t1@ == t2@,
        (
            ViewNode::Button { text: t1, action: a1 },
            ViewNode::Button { text: t2, action: a2 },
        ) => t1@ == t2@ && a1 == a2,
        (ViewNode::Observer { action: a1 }, ViewNode::Observer { action: a2 }) => a1 == a2,
        (ViewNode::Column { children: c1 }, ViewNode::Column { children: c2 }) => c1.len()
            == c2.len() && (forall|i: int|
            0 <= i < c1.len() ==> same_view(#[trigger] c1@[i], c2@[i])),
        _ => false,
    }
}

/// The persisted state has the shape the view demands.
pub open spec fn wf_state(v: ViewNode, s: ViewState) -> bool
    decreases v,
{
    match v {
        ViewNode::Column { children } => s matches ViewState::Column { children: cs } && cs.len()
            == children.len() && (forall|i: int|
            0 <= i < children.len() ==> wf_state(#[trigger] children@[i], cs@[i].state)),
        _ => s is Leaf,
    }
}

/// The element renders the view: text and structure agree, recursively.
pub open spec fn reflects(v: ViewNode, e: Element) -> bool
    decreases v,
{
    match v {
        ViewNode::Label { text } => e matches Element::Label { text: t } && t@ == text@,
        ViewNode::Button { text, action: _ } => e matches Element::Button { text: t } && t@
            == text@,
        ViewNode::Observer { action } => e matches Element::Observer { action: a, notified: _ }
            && a == action,
        ViewNode::Column { children } => e matches Element::Column { children: pods }
            && pods.len() == children.len() && (forall|i: int|
            0 <= i < children.len() ==> reflects(#[trigger] children@[i], pods@[i].element)),
    }
}

/// Equality of two persisted state trees as data: ids and shapes.
pub open spec fn states_match(a: ViewState, b: ViewState) -> bool
    decreases a,
{
    match (a, b) {
        (ViewState::Leaf, ViewState::Leaf) => true,
        (ViewState::Column { children: c1 }, ViewState::Column { children: c2 }) => c1.len()
            == c2.len() && (forall|i: int|
            0 <= i < c1.len() ==> c1@[i].id == c2@[i].id && states_match(
                #[trigger] c1@[i].state,
                c2@[i].state,
            )),
        _ => false,
    }
}


/// The allocator invariant: every id stored at or below this node lies
/// strictly below `bound`, the allocator's next id — so a freshly
/// allocated id differs from every live one.
pub open spec fn ids_below(id: Id, s: ViewState, bound: u64) -> bool
    decreases s,
{
    id.raw < bound && match s {
        ViewState::Column { children } => forall|i: int|
            0 <= i < children.len() ==> ids_below(
                (#[trigger] children@[i]).id,
                children@[i].state,
                bound,
            ),
        ViewState::Leaf => true,
    }
}

/// Ids below a bound stay below any larger bound.
pub proof fn lemma_ids_below_mono(id: Id, s: ViewState, b1: u64, b2: u64)
    requires
        ids_below(id, s, b1),
        b1 <= b2,
    ensures
        ids_below(id, s, b2),
    decreases s,
{
    match s {
        ViewState::Column { children } => {
            assert forall|i: int| 0 <= i < children@.len() implies ids_below(
                (#[trigger] children@[i]).id,
                children@[i].state,
                b2,
            ) by {
                lemma_ids_below_mono(children@[i].id, children@[i].state, b1, b2);
            }
        },
        ViewState::Leaf => {},
    }
}

/// Pod id paths agree with the persisted identity tree: every child pod
/// records `base` extended by that child's id, recursively. Event routing
/// (`button_hit`, observer notifications, wake paths) goes by these
/// recorded paths, so dispatch by id resolves to the node the state tree
/// names.
pub open spec fn paths_ok(e: Element, s: ViewState, base: Seq<Id>) -> bool
    decreases e,
{
    match (e, s) {
        (Element::Column { children: pods }, ViewState::Column { children: cs }) => pods.len()
            == cs.len() && (forall|i: int|
            0 <= i < pods.len() ==> (#[trigger] pods@[i]).id_path@ == base.push(cs@[i].id)
                && paths_ok(pods@[i].element, cs@[i].state, base.push(cs@[i].id))),
        (Element::Column { .. }, _) => false,
        _ => true,
    }
}

/// An update pass preserves path consistency: it touches flags only.
pub proof fn lemma_paths_updated(a: Pod, b: Pod, s: ViewState, base: Seq<Id>)
    requires
        paths_ok(a.element, s, base),
        crate::widget::updated_pod(a, b),
    ensures
        paths_ok(b.element, s, base),
    decreases a,
{
    match (a.element, b.element, s) {
        (
            Element::Column { children: c1 },
            Element::Column { children: c2 },
            ViewState::Column { children: cs },
        ) => {
            assert forall|i: int| 0 <= i < c2@.len() implies (#[trigger] c2@[i]).id_path@
                == base.push(cs@[i].id) && paths_ok(
                c2@[i].element,
                cs@[i].state,
                base.push(cs@[i].id),
            ) by {
                lemma_paths_updated(c1@[i], c2@[i], cs@[i].state, base.push(cs@[i].id));
            }
        },
        _ => {},
    }
}

/// A layout or prepare-paint pass preserves path consistency: it touches
/// cached geometry only.
pub proof fn lemma_paths_skeleton(a: Pod, b: Pod, s: ViewState, base: Seq<Id>)
    requires
        paths_ok(a.element, s, base),
        crate::widget::same_skeleton(a, b),
    ensures
        paths_ok(b.element, s, base),
    decreases a,
{
    match (a.element, b.element, s) {
        (
            Element::Column { children: c1 },
            Element::Column { children: c2 },
            ViewState::Column { children: cs },
        ) => {
            assert forall|i: int| 0 <= i < c2@.len() implies (#[trigger] c2@[i]).id_path@
                == base.push(cs@[i].id) && paths_ok(
                c2@[i].element,
                cs@[i].state,
                base.push(cs@[i].id),
            ) by {
                lemma_paths_skeleton(c1@[i], c2@[i], cs@[i].state, base.push(cs@[i].id));
            }
        },
        _ => {},
    }
}

/// `ids_stable` is reflexive: keeping the view keeps every id.
pub proof fn lemma_ids_stable_refl(v: ViewNode, n: ChildState)
    ensures
        ids_stable(v, v, n, n),
    decreases v,
{
    match v {
        ViewNode::Column { children } => {
            match n.state {
                ViewState::Column { children: cs } => {
                    assert forall|i: int|
                        0 <= i < children@.len() && i < cs@.len() implies ids_stable(
                            children@[i],
                            #[trigger] children@[i],
                            cs@[i],
                            cs@[i],
                        ) by {
                        lemma_ids_stable_refl(children@[i], cs@[i]);
                    }
                },
                _ => {},
            }
        },
        _ => {},
    }
}

/// Identity stability across one rebuild: wherever the new view holds the
/// same kind at the same tree position as the old one, the node keeps its
/// id.
pub open spec fn ids_stable(prev: ViewNode, next: ViewNode, old_n: ChildState, new_n: ChildState) -> bool
    decreases next,
{
    prev.kind() == next.kind() ==> {
        &&& new_n.id == old_n.id
        &&& match (prev, next) {
            (ViewNode::Column { children: pc }, ViewNode::Column { children: nc }) => {
                match (old_n.state, new_n.state) {
                    (
                        ViewState::Column { children: oc },
                        ViewState::Column { children: mc },
                    ) => forall|i: int|
                        0 <= i < nc.len() && i < pc.len() && i < oc.len() && i < mc.len()
                            ==> ids_stable(pc@[i], #[trigger] nc@[i], oc@[i], mc@[i]),
                    _ => true,
                }
            },
            _ => true,
        }
    }
}

/// The index of the first child whose id matches, or -1.
pub open spec fn first_match(cs: Seq<ChildState>, id: Id) -> int
    decreases cs,
{
    if cs.len() == 0 {
        -1
    } else if cs[0].id == id {
        0
    } else {
        let r = first_match(cs.drop_first(), id);
        if r < 0 {
            -1
        } else {
            r + 1
        }
    }
}

pub proof fn lemma_first_match(cs: Seq<ChildState>, id: Id)
    ensures
        first_match(cs, id) == -1 ==> forall|k: int| 0 <= k < cs.len() ==> cs[k].id != id,
        first_match(cs, id) >= 0 ==> 0 <= first_match(cs, id) < cs.len() && cs[first_match(
            cs,
            id,
        )].id == id && (forall|k: int| 0 <= k < first_match(cs, id) ==> cs[k].id != id),
    decreases cs,
{
    if cs.len() > 0 && cs[0].id != id {
        lemma_first_match(cs.drop_first(), id);
        assert(forall|k: int| 1 <= k < cs.len() ==> cs[k] == cs.drop_first()[k - 1]);
    }
}

/// What dispatching a payload along a (relative) id path yields: the
/// action of the node it resolves to, or nothing when the path is stale
/// (its target no longer exists) — a stale event is dropped silently,
/// never a fault.
pub open spec fn dispatch_spec(v: ViewNode, s: ViewState, path: Seq<Id>, body: EventBody) -> Option<
    u64,
>
    decreases v,
{
    match v {
        ViewNode::Label { .. } => None,
        ViewNode::Button { action, .. } => if path.len() == 0 && body is Pressed {
            Some(action)
        } else {
            None
        },
        ViewNode::Observer { action } => if path.len() == 0 && (body is Notify
            || body is AsyncWake) {
            Some(action)
        } else {
            None
        },
        ViewNode::Column { children } => {
            if path.len() == 0 {
                None
            } else {
                match s {
                    ViewState::Column { children: cs } => {
                        let j = first_match(cs@, path[0]);
                        if 0 <= j < children.len() && j < cs@.len() {
                            dispatch_spec(children@[j], cs@[j].state, path.drop_first(), body)
                        } else {
                            None
                        }
                    },
                    ViewState::Leaf => None,
                }
            }
        },
    }
}

pub proof fn lemma_count_split(s: Seq<ViewNode>, i: int)
    requires
        0 <= i <= s.len(),
    ensures
        count_seq(s) == count_seq(s.take(i)) + count_seq(s.skip(i)),
    decreases s.len(),
{
    if i == s.len() {
        assert(s.take(i) =~= s);
        assert(s.skip(i) =~= Seq::<ViewNode>::empty());
    } else {
        let dl = s.drop_last();
        lemma_count_split(dl, i);
        assert(dl.take(i) =~= s.take(i));
        assert(s.skip(i).drop_last() =~= dl.skip(i));
        assert(s.skip(i).last() == s.last());
    }
}

pub proof fn lemma_count_prefix_bound(s: Seq<ViewNode>, i: int)
    requires
        0 <= i < s.len(),
    ensures
        count_seq(s) >= count_seq(s.take(i)) + s[i].node_count(),
    decreases s.len(),
{
    lemma_count_split(s, i);
    let t = s.skip(i);
    lemma_count_split(t, 1);
    assert(t.take(1).drop_last() =~= Seq::<ViewNode>::empty());
    assert(t.take(1).last() == s[i]);
}

impl ViewNode {
    /// Number of nodes in this subtree, or nothing if it does not fit the
    /// id space; returns a count iff the subtree holds at most `u64::MAX`
    /// nodes.
    #[verifier::loop_isolation(false)]
    pub fn count_nodes(&self) -> (r: Option<u64>)
        ensures
            r matches Some(n) ==> n == self.node_count(),
            r is None ==> self.node_count() > u64::MAX,
        decreases self,
    {
        match self {
            ViewNode::Column { children } => {
                let mut total: u64 = 1;
                let mut i: usize = 0;
                while i < children.len()
                    invariant
                        i <= children.len(),
                        total == 1 + count_seq(children@.take(i as int)),
                    decreases children.len() - i,
                {
                    proof {
                        assert(*self == ViewNode::Column { children: *children });
                        assert(decreases_to!(*self => *children));
                        assert(decreases_to!(*children => children@));
                        assert(decreases_to!(children@ => children@[i as int]));
                    }
                    let c = match children[i].count_nodes() {
                        Some(n) => n,
                        None => {
                            proof {
                                lemma_count_prefix_bound(children@, i as int);
                            }
                            return None;
                        },
                    };
                    if total > u64::MAX - c {
                        proof {
                            lemma_count_prefix_bound(children@, i as int);
                        }
                        return None;
                    }
                    total = total + c;
                    i = i + 1;
                    proof {
                        let t = children@.take(i as int);
                        assert(t.drop_last() =~= children@.take(i - 1));
                        assert(t.last() == children@[i - 1]);
                    }
                }
                proof {
                    assert(children@.take(children@.len() as int) =~= children@);
                }
                Some(total)
            },
            _ => Some(1),
        }
    }

    fn kinds_match(&self, other: &ViewNode) -> (r: bool)
        ensures
            r == (self.kind() == other.kind()),
    {
        match (self, other) {
            (ViewNode::Label { .. }, ViewNode::Label { .. }) => true,
            (ViewNode::Button { .. }, ViewNode::Button { .. }) => true,
            (ViewNode::Observer { .. }, ViewNode::Observer { .. }) => true,
            (ViewNode::Column { .. }, ViewNode::Column { .. }) => true,
            _ => false,
        }
    }
}
impl ViewNode {
    /// Allocates a fresh identity, fresh persisted state and a fresh
    /// retained element for this node and its subtree. Called at most once
    /// per logical node's lifetime, at first appearance.
    #[verifier::loop_isolation(false)]
    #[verifier::rlimit(50)]
    pub fn build(&self, cx: &mut Cx) -> (res: (Id, ViewState, Element))
        requires
            old(cx).next_id() + self.node_count() <= u64::MAX,
        ensures
            final(cx).path() == old(cx).path(),
            old(cx).next_id() < final(cx).next_id(),
            final(cx).next_id() <= old(cx).next_id() + self.node_count(),
            res.0.raw == old(cx).next_id(),
            reflects(*self, res.2),
            wf_state(*self, res.1),
            ids_below(res.0, res.1, final(cx).next_id()),
            crate::widget::unnotified(res.2),
            paths_ok(res.2, res.1, old(cx).path().push(res.0)),
        decreases self,
    {
        let id = cx.alloc_id();
        match self {
            ViewNode::Label { text } => (id, ViewState::Leaf, Element::Label { text: text.clone() }),
            ViewNode::Button { text, action: _ } => (
                id,
                ViewState::Leaf,
                Element::Button { text: text.clone() },
            ),
            ViewNode::Observer { action } => (
                id,
                ViewState::Leaf,
                Element::Observer { action: *action, notified: false },
            ),
            ViewNode::Column { children } => {
                cx.push(id);
                let ghost news = children@;
                let mut cstates: Vec<ChildState> = Vec::new();
                let mut pods: Vec<Pod> = Vec::new();
                let mut i: usize = 0;
                while i < children.len()
                    invariant
                        i <= children.len(),
                        cstates@.len() == i as int,
                        pods@.len() == i as int,
                        cx.path() == old(cx).path().push(id),
                        old(cx).next_id() < cx.next_id(),
                        cx.next_id() <= old(cx).next_id() + 1 + count_seq(news.take(i as int)),
                        forall|k: int|
                            0 <= k < i ==> reflects(news[k], #[trigger] pods@[k].element),
                        forall|k: int|
                            0 <= k < i ==> wf_state(news[k], #[trigger] cstates@[k].state),
                        forall|k: int|
                            0 <= k < i ==> ids_below(
                                (#[trigger] cstates@[k]).id,
                                cstates@[k].state,
                                cx.next_id(),
                            ),
                        forall|k: int|
                            0 <= k < i ==> crate::widget::unnotified(
                                (#[trigger] pods@[k]).element,
                            ),
                        forall|k: int|
                            0 <= k < i ==> (#[trigger] pods@[k]).id_path@ == old(cx).path().push(
                                id,
                            ).push(cstates@[k].id) && paths_ok(
                                pods@[k].element,
                                cstates@[k].state,
                                old(cx).path().push(id).push(cstates@[k].id),
                            ),
                    decreases children.len() - i,
                {
                    proof {
                        assert(*self == ViewNode::Column { children: *children });
                        assert(decreases_to!(*self => *children));
                        assert(decreases_to!(*children => children@));
                        assert(decreases_to!(children@ => children@[i as int]));
                        lemma_count_prefix_bound(news, i as int);
                    }
                    let ghost prev_next = cx.next_id();
                    let (cid, cstate, celem) = children[i].build(cx);
                    let mut cpath = cx.snapshot_path();
                    cpath.push(cid);
                    pods.push(Pod::new(celem, cpath));
                    cstates.push(ChildState { id: cid, state: cstate });
                    i = i + 1;
                    proof {
                        let t = news.take(i as int);
                        assert(t.drop_last() =~= news.take(i - 1));
                        assert(t.last() == news[i - 1]);
                        assert forall|k: int| 0 <= k < i implies ids_below(
                            (#[trigger] cstates@[k]).id,
                            cstates@[k].state,
                            cx.next_id(),
                        ) by {
                            if k < i - 1 {
                                lemma_ids_below_mono(
                                    cstates@[k].id,
                                    cstates@[k].state,
                                    prev_next,
                                    cx.next_id(),
                                );
                            }
                        }
                    }
                }
                proof {
                    assert(news.take(news.len() as int) =~= news);
                }
                cx.pop();
                proof {
                    assert(old(cx).path().push(id).drop_last() =~= old(cx).path());
                }
                (
                    id,
                    ViewState::Column { children: cstates },
                    Element::Column { children: pods },
                )
            },
        }
    }

    /// Compares this view against the previous cycle's view at the same
    /// tree position. Structurally compatible (same kind): state and
    /// element are patched in place and the node keeps its id; reports
    /// whether anything observable changed. Incompatible: the old subtree
    /// is torn down and a fresh id, state and element are built, exactly
    /// as a fresh build would.
    #[verifier::loop_isolation(false)]
    #[verifier::rlimit(100)]
    pub fn rebuild(
        &self,
        cx: &mut Cx,
        prev: &ViewNode,
        id: &mut Id,
        state: &mut ViewState,
        element: &mut Element,
    ) -> (changed: bool)
        requires
            old(cx).next_id() + self.node_count() <= u64::MAX,
            reflects(*prev, *old(element)),
            wf_state(*prev, *old(state)),
            ids_below(*old(id), *old(state), old(cx).next_id()),
            paths_ok(*old(element), *old(state), old(cx).path().push(*old(id))),
        ensures
            final(cx).path() == old(cx).path(),
            old(cx).next_id() <= final(cx).next_id(),
            final(cx).next_id() <= old(cx).next_id() + self.node_count(),
            reflects(*self, *final(element)),
            wf_state(*self, *final(state)),
            ids_stable(
                *prev,
                *self,
                ChildState { id: *old(id), state: *old(state) },
                ChildState { id: *final(id), state: *final(state) },
            ),
            same_view(*self, *prev) ==> !changed,
            !changed ==> *final(id) == *old(id) && elements_match(*old(element), *final(element))
                && states_match(*old(state), *final(state)),
            self.kind() != prev.kind() ==> changed && final(id).raw == old(cx).next_id()
                && *final(id) != *old(id) && crate::widget::unnotified(*final(element)),
            ids_below(*final(id), *final(state), final(cx).next_id()),
            paths_ok(*final(element), *final(state), old(cx).path().push(*final(id))),
        decreases self,
    {
        if !self.kinds_match(prev) {
            let (nid, nstate, nelement) = self.build(cx);
            *id = nid;
            *state = nstate;
            *element = nelement;
            return true;
        }
        match self {
            ViewNode::Label { text } => {
                match element {
                    Element::Label { text: et } => {
                        if (&*et).eq(text) {
                            false
                        } else {
                            *et = text.clone();
                            true
                        }
                    },
                    _ => {
                        proof {
                            assert(false);
                        }
                        false
                    },
                }
            },
            ViewNode::Button { text, action: _ } => {
                match element {
                    Element::Button { text: et } => {
                        if (&*et).eq(text) {
                            false
                        } else {
                            *et = text.clone();
                            true
                        }
                    },
                    _ => {
                        proof {
                            assert(false);
                        }
                        false
                    },
                }
            },
            ViewNode::Observer { action } => {
                match element {
                    Element::Observer { action: ea, notified: _ } => {
                        if *ea == *action {
                            false
                        } else {
                            *ea = *action;
                            true
                        }
                    },
                    _ => {
                        proof {
                            assert(false);
                        }
                        false
                    },
                }
            },
            ViewNode::Column { children } => {
                let mut elem_tmp = Element::Label { text: String::new() };
                core::mem::swap(element, &mut elem_tmp);
                let mut state_tmp = ViewState::Leaf;
                core::mem::swap(state, &mut state_tmp);
                match (prev, elem_tmp, state_tmp) {
                    (
                        ViewNode::Column { children: pchildren },
                        Element::Column { children: mut pods },
                        ViewState::Column { children: mut cs },
                    ) => {
                        let ghost news = children@;
                        let ghost prevs = pchildren@;
                        let ghost oldpods = pods@;
                        let ghost oldcs = cs@;
                        cx.push(*id);
                        let mut new_pods: Vec<Pod> = Vec::new();
                        let mut new_cs: Vec<ChildState> = Vec::new();
                        let mut changed = children.len() != pchildren.len();
                        let m = if children.len() <= pchildren.len() {
                            children.len()
                        } else {
                            pchildren.len()
                        };
                        let mut i: usize = 0;
                        while i < m
                            invariant
                                i <= m,
                                pods@ == oldpods.skip(i as int),
                                cs@ == oldcs.skip(i as int),
                                new_pods@.len() == i as int,
                                new_cs@.len() == i as int,
                                cx.path() == old(cx).path().push(*old(id)),
                                old(cx).next_id() <= cx.next_id(),
                                cx.next_id() <= old(cx).next_id() + count_seq(
                                    news.take(i as int),
                                ),
                                forall|k: int|
                                    0 <= k < i ==> reflects(
                                        news[k],
                                        #[trigger] new_pods@[k].element,
                                    ),
                                forall|k: int|
                                    0 <= k < i ==> wf_state(
                                        news[k],
                                        #[trigger] new_cs@[k].state,
                                    ),
                                forall|k: int|
                                    0 <= k < i ==> ids_stable(
                                        prevs[k],
                                        news[k],
                                        oldcs[k],
                                        #[trigger] new_cs@[k],
                                    ),
                                forall|k: int|
                                    0 <= k < i ==> ids_below(
                                        (#[trigger] new_cs@[k]).id,
                                        new_cs@[k].state,
                                        cx.next_id(),
                                    ),
                                forall|k: int|
                                    0 <= k < i ==> (#[trigger] new_pods@[k]).id_path@ == old(
                                        cx,
                                    ).path().push(*old(id)).push(new_cs@[k].id) && paths_ok(
                                        new_pods@[k].element,
                                        new_cs@[k].state,
                                        old(cx).path().push(*old(id)).push(new_cs@[k].id),
                                    ),
                                children.len() != pchildren.len() ==> changed,
                                same_view(*self, *prev) ==> !changed,
                                !changed ==> forall|k: int|
                                    0 <= k < i ==> pods_match(
                                        oldpods[k],
                                        #[trigger] new_pods@[k],
                                    ) && oldcs[k].id == new_cs@[k].id && states_match(
                                        oldcs[k].state,
                                        new_cs@[k].state,
                                    ),
                            decreases m - i,
                        {
                            proof {
                                assert(*self == ViewNode::Column { children: *children });
                                assert(decreases_to!(*self => *children));
                                assert(decreases_to!(*children => children@));
                                assert(decreases_to!(children@ => children@[i as int]));
                                lemma_count_prefix_bound(news, i as int);
                            }
                            let cpod = pods.remove(0);
                            let centry = cs.remove(0);
                            let ghost prev_next = cx.next_id();
                            proof {
                                assert(cpod == oldpods[i as int]);
                                assert(centry == oldcs[i as int]);
                                assert(pods@ =~= oldpods.skip(i as int + 1));
                                assert(cs@ =~= oldcs.skip(i as int + 1));
                                lemma_ids_below_mono(
                                    centry.id,
                                    centry.state,
                                    old(cx).next_id(),
                                    cx.next_id(),
                                );
                            }
                            let Pod {
                                id_path: oldpath,
                                element: mut celem,
                                requested_update: oldreq,
                                size: oldsize,
                                visible: oldvis,
                            } = cpod;
                            let ChildState { id: mut cid, state: mut cstate } = centry;
                            let c_changed = children[i].rebuild(
                                cx,
                                &pchildren[i],
                                &mut cid,
                                &mut cstate,
                                &mut celem,
                            );
                            let nupath: IdPath = if c_changed {
                                let mut p = cx.snapshot_path();
                                p.push(cid);
                                p
                            } else {
                                oldpath
                            };
                            let nureq = if c_changed {
                                true
                            } else {
                                oldreq
                            };
                            new_pods.push(
                                Pod {
                                    id_path: nupath,
                                    element: celem,
                                    requested_update: nureq,
                                    size: oldsize,
                                    visible: oldvis,
                                },
                            );
                            new_cs.push(ChildState { id: cid, state: cstate });
                            if c_changed {
                                changed = true;
                            }
                            i = i + 1;
                            proof {
                                let t = news.take(i as int);
                                assert(t.drop_last() =~= news.take(i - 1));
                                assert(t.last() == news[i - 1]);
                                assert forall|k: int| 0 <= k < i implies ids_below(
                                    (#[trigger] new_cs@[k]).id,
                                    new_cs@[k].state,
                                    cx.next_id(),
                                ) by {
                                    if k < i - 1 {
                                        lemma_ids_below_mono(
                                            new_cs@[k].id,
                                            new_cs@[k].state,
                                            prev_next,
                                            cx.next_id(),
                                        );
                                    }
                                }
                            }
                        }
                        while i < children.len()
                            invariant
                                m <= i <= children.len(),
                                children.len() != pchildren.len() ==> changed,
                                i > m ==> changed,
                                new_pods@.len() == i as int,
                                new_cs@.len() == i as int,
                                cx.path() == old(cx).path().push(*old(id)),
                                old(cx).next_id() <= cx.next_id(),
                                cx.next_id() <= old(cx).next_id() + count_seq(
                                    news.take(i as int),
                                ),
                                forall|k: int|
                                    0 <= k < i ==> reflects(
                                        news[k],
                                        #[trigger] new_pods@[k].element,
                                    ),
                                forall|k: int|
                                    0 <= k < i ==> wf_state(
                                        news[k],
                                        #[trigger] new_cs@[k].state,
                                    ),
                                forall|k: int|
                                    0 <= k < m ==> ids_stable(
                                        prevs[k],
                                        news[k],
                                        oldcs[k],
                                        #[trigger] new_cs@[k],
                                    ),
                                forall|k: int|
                                    0 <= k < i ==> ids_below(
                                        (#[trigger] new_cs@[k]).id,
                                        new_cs@[k].state,
                                        cx.next_id(),
                                    ),
                                forall|k: int|
                                    0 <= k < i ==> (#[trigger] new_pods@[k]).id_path@ == old(
                                        cx,
                                    ).path().push(*old(id)).push(new_cs@[k].id) && paths_ok(
                                        new_pods@[k].element,
                                        new_cs@[k].state,
                                        old(cx).path().push(*old(id)).push(new_cs@[k].id),
                                    ),
                                same_view(*self, *prev) ==> !changed,
                                !changed ==> forall|k: int|
                                    0 <= k < i ==> pods_match(
                                        oldpods[k],
                                        #[trigger] new_pods@[k],
                                    ) && oldcs[k].id == new_cs@[k].id && states_match(
                                        oldcs[k].state,
                                        new_cs@[k].state,
                                    ),
                            decreases children.len() - i,
                        {
                            proof {
                                assert(*self == ViewNode::Column { children: *children });
                                assert(decreases_to!(*self => *children));
                                assert(decreases_to!(*children => children@));
                                assert(decreases_to!(children@ => children@[i as int]));
                                lemma_count_prefix_bound(news, i as int);
                            }
                            let ghost prev_next = cx.next_id();
                            let (cid, cstate, celem) = children[i].build(cx);
                            let mut cpath = cx.snapshot_path();
                            cpath.push(cid);
                            new_pods.push(Pod::new(celem, cpath));
                            new_cs.push(ChildState { id: cid, state: cstate });
                            i = i + 1;
                            proof {
                                let t = news.take(i as int);
                                assert(t.drop_last() =~= news.take(i - 1));
                                assert(t.last() == news[i - 1]);
                                assert forall|k: int| 0 <= k < i implies ids_below(
                                    (#[trigger] new_cs@[k]).id,
                                    new_cs@[k].state,
                                    cx.next_id(),
                                ) by {
                                    if k < i - 1 {
                                        lemma_ids_below_mono(
                                            new_cs@[k].id,
                                            new_cs@[k].state,
                                            prev_next,
                                            cx.next_id(),
                                        );
                                    }
                                }
                            }
                        }
                        proof {
                            assert(news.take(news.len() as int) =~= news);
                        }
                        *element = Element::Column { children: new_pods };
                        *state = ViewState::Column { children: new_cs };
                        cx.pop();
                        proof {
                            assert(old(cx).path().push(*old(id)).drop_last() =~= old(
                                cx,
                            ).path());
                            if !changed {
                                assert(news.len() == prevs.len());
                                assert(elements_match(*old(element), *element));
                                assert(states_match(*old(state), *state));
                            }
                        }
                        changed
                    },
                    _ => {
                        proof {
                            assert(false);
                        }
                        false
                    },
                }
            },
        }
    }

    /// Routes a payload to the descendant the (relative) id path names,
    /// recursing through the view tree, and returns the action that
    /// descendant yields. An id path that no longer resolves — a stale
    /// event from a removed node — is silently discarded, never a fault.
    #[verifier::loop_isolation(false)]
    pub fn event(
        &self,
        state: &ViewState,
        id_path: &IdPath,
        from: usize,
        body: &EventBody,
    ) -> (r: Option<u64>)
        requires
            from <= id_path@.len(),
        ensures
            r == dispatch_spec(*self, *state, id_path@.skip(from as int), *body),
        decreases self,
    {
        match self {
            ViewNode::Label { .. } => None,
            ViewNode::Button { action, .. } => {
                if from == id_path.len() && matches!(body, EventBody::Pressed) {
                    Some(*action)
                } else {
                    None
                }
            },
            ViewNode::Observer { action } => {
                if from == id_path.len() && (matches!(body, EventBody::Notify) || matches!(
                    body,
                    EventBody::AsyncWake,
                )) {
                    Some(*action)
                } else {
                    None
                }
            },
            ViewNode::Column { children } => {
                if from == id_path.len() {
                    return None;
                }
                match state {
                    ViewState::Column { children: cs } => {
                        let target = id_path[from];
                        proof {
                            assert(id_path@.skip(from as int)[0] == target);
                        }
                        let mut j: usize = 0;
                        while j < cs.len() && cs[j].id != target
                            invariant
                                j <= cs.len(),
                                forall|k: int| 0 <= k < j ==> cs@[k].id != target,
                            decreases cs.len() - j,
                        {
                            j = j + 1;
                        }
                        proof {
                            lemma_first_match(cs@, target);
                            if j < cs@.len() {
                                assert(first_match(cs@, target) == j as int);
                            } else {
                                assert(first_match(cs@, target) == -1);
                            }
                        }
                        if j < cs.len() && j < children.len() {
                            proof {
                                assert(*self == ViewNode::Column { children: *children });
                                assert(decreases_to!(*self => *children));
                                assert(decreases_to!(*children => children@));
                                assert(decreases_to!(children@ => children@[j as int]));
                                assert(id_path@.skip(from as int).drop_first() =~= id_path@.skip(
                                    from as int + 1,
                                ));
                            }
                            children[j].event(&cs[j].state, id_path, from + 1, body)
                        } else {
                            None
                        }
                    },
                    ViewState::Leaf => None,
                }
            },
        }
    }
}


/// An update pass leaves the element still rendering the same view.
pub proof fn lemma_reflects_updated(v: ViewNode, a: Pod, b: Pod)
    requires
        reflects(v, a.element),
        crate::widget::updated_pod(a, b),
    ensures
        reflects(v, b.element),
    decreases v,
{
    match (v, a.element, b.element) {
        (
            ViewNode::Column { children },
            Element::Column { children: c1 },
            Element::Column { children: c2 },
        ) => {
            assert forall|k: int| 0 <= k < children@.len() implies reflects(
                children@[k],
                #[trigger] c2@[k].element,
            ) by {
                lemma_reflects_updated(children@[k], c1@[k], c2@[k]);
            }
        },
        _ => {},
    }
}

/// A layout or prepare-paint pass leaves the element still rendering the
/// same view.
pub proof fn lemma_reflects_skeleton(v: ViewNode, a: Pod, b: Pod)
    requires
        reflects(v, a.element),
        crate::widget::same_skeleton(a, b),
    ensures
        reflects(v, b.element),
    decreases v,
{
    match (v, a.element, b.element) {
        (
            ViewNode::Column { children },
            Element::Column { children: c1 },
            Element::Column { children: c2 },
        ) => {
            assert forall|k: int| 0 <= k < children@.len() implies reflects(
                children@[k],
                #[trigger] c2@[k].element,
            ) by {
                lemma_reflects_skeleton(children@[k], c1@[k], c2@[k]);
            }
        },
        _ => {},
    }
}

} // verus!
