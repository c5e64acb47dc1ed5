//! Scene hierarchy stored in a slot map: parent and child links, dirty
//! tracking for cached world transforms, sparse editor metadata and the
//! in-graph selection.

use vstd::prelude::*;
use slotmap::DefaultKey;

use crate::ids::{NodeId, ValidationError};
use crate::scene::editor::{all_layers, LayerPolicy, NodeEditorMetadata};
use crate::scene::node::SceneNode;
use crate::scene::selection::{
    apply_mode, apply_selection, is_diff, replace_selection, sorted_unique, SelectionChange, SelectionMode,
    SelectionState,
};
use crate::scene::slots::{
    slot_records, NodeSlots, slots_get, slots_get_mut, slots_insert, slots_remove, slots_with_capacity,
};

verus! {

/// One stored node: its data, its links, and whether its cached world
/// transform is stale.
pub struct NodeRecord {
    id: NodeId,
    node: SceneNode,
    parent: Option<NodeId>,
    children: Vec<NodeId>,
    dirty: bool,
}

/// Scene node hierarchy with stable ids, built on a slot map.
pub struct SceneGraph {
    nodes: NodeSlots,
    roots: Vec<NodeId>,
    id_to_key: Vec<Option<DefaultKey>>,
    next_id: u64,
    dirty_roots: Vec<NodeId>,
    editor_metadata: Vec<Option<NodeEditorMetadata>>,
    selection: SelectionState,
    layer_policy: LayerPolicy,
    /// Number of proper ancestors of each live node.
    depth: Ghost<Map<u64, nat>>,
}

/// The index of a non-null id that fits in `usize`.
fn id_index(id: NodeId) -> (r: Option<usize>)
    ensures
        match r {
            Some(i) => id.0 != 0 && i == id.0,
            None => id.0 == 0 || id.0 > usize::MAX,
        },
{
    let raw = id.get();
    if raw == 0 || raw as u128 > usize::MAX as u128 {
        None
    } else {
        Some(raw as usize)
    }
}

impl SceneGraph {
    spec fn slots(&self) -> Map<DefaultKey, NodeRecord> {
        slot_records(self.nodes)
    }

    /// Whether the raw id `raw` names a node of this graph.
    pub closed spec fn live(&self, raw: u64) -> bool {
        &&& 1 <= raw < self.next_id
        &&& raw < self.id_to_key@.len()
        &&& self.id_to_key@[raw as int] is Some
    }

    spec fn key_of(&self, raw: u64) -> DefaultKey {
        self.id_to_key@[raw as int]->0
    }

    spec fn rec(&self, raw: u64) -> NodeRecord {
        self.slots()[self.key_of(raw)]
    }

    /// Whether `id` names a node of this graph.
    pub open spec fn has(&self, id: NodeId) -> bool {
        self.live(id.0)
    }

    /// The data of node `id`.
    pub closed spec fn node(&self, id: NodeId) -> SceneNode {
        self.rec(id.0).node
    }

    /// The parent of node `id`; `None` for a root.
    pub closed spec fn parent_of(&self, id: NodeId) -> Option<NodeId> {
        self.rec(id.0).parent
    }

    /// The children of node `id`, in insertion order.
    pub closed spec fn children_of(&self, id: NodeId) -> Seq<NodeId> {
        self.rec(id.0).children@
    }

    /// Whether the cached world transform of node `id` is stale.
    pub closed spec fn is_dirty(&self, id: NodeId) -> bool {
        self.rec(id.0).dirty
    }

    /// The root nodes, in insertion order.
    pub closed spec fn root_ids(&self) -> Seq<NodeId> {
        self.roots@
    }

    /// Nodes recorded as tops of stale subtrees since the last update.
    pub closed spec fn pending(&self) -> Seq<NodeId> {
        self.dirty_roots@
    }

    /// The raw id the next added node receives.
    pub closed spec fn next_raw(&self) -> u64 {
        self.next_id
    }

    /// Number of records held by the slot map.
    pub closed spec fn stored(&self) -> nat {
        self.slots().dom().len()
    }

    /// Number of proper ancestors of node `id`.
    pub closed spec fn depth_of(&self, id: NodeId) -> nat {
        self.depth@[id.0]
    }

    /// The explicit editor metadata of node `id`, if any was set.
    pub closed spec fn metadata_of(&self, id: NodeId) -> Option<NodeEditorMetadata> {
        if id.0 < self.editor_metadata@.len() {
            self.editor_metadata@[id.0 as int]
        } else {
            None
        }
    }

    /// The editor selection.
    pub closed spec fn selection_spec(&self) -> SelectionState {
        self.selection
    }

    /// The interaction layer policy.
    pub closed spec fn policy(&self) -> LayerPolicy {
        self.layer_policy
    }

    /// The links and depth of one live node are consistent with the rest of
    /// the graph.
    spec fn record_ok(&self, i: u64) -> bool {
        let r = self.rec(i);
        &&& self.slots().contains_key(self.key_of(i))
        &&& r.id == NodeId(i)
        &&& self.depth@.contains_key(i)
        &&& match r.parent {
            Some(p) => {
                &&& self.live(p.0)
                &&& self.rec(p.0).children@.contains(NodeId(i))
                &&& self.depth@[i] == self.depth@[p.0] + 1
            },
            None => self.roots@.contains(NodeId(i)) && self.depth@[i] == 0,
        }
        &&& r.children@.no_duplicates()
        &&& forall|j: int|
            0 <= j < r.children@.len() ==> {
                &&& self.live((#[trigger] r.children@[j]).0)
                &&& self.rec(r.children@[j].0).parent == Some(NodeId(i))
                &&& (r.dirty ==> self.rec(r.children@[j].0).dirty)
            }
    }

    /// The id table covers exactly the ids handed out so far.
    spec fn index_ok(&self) -> bool {
        &&& 1 <= self.next_id <= usize::MAX
        &&& self.id_to_key@.len() == self.next_id
        &&& self.id_to_key@[0] is None
    }

    /// The graph invariant: ids, keys, links, depths, dirty flags, metadata and
    /// selection agree.
    pub closed spec fn wf(&self) -> bool {
        self.core_ok() && self.refs_ok() && self.dirt_pending()
    }

    /// Every stale node whose parent is up to date (or that has no parent)
    /// is pending, so that an update reaches every stale node.
    pub closed spec fn dirt_pending(&self) -> bool {
        forall|x: NodeId|
            #[trigger] self.has(x) && self.is_dirty(x) && !self.dirty_parent(x) ==> self.pending().contains(x)
    }

    /// Whether node `x` has a parent whose world transform is stale.
    pub open spec fn dirty_parent(&self, x: NodeId) -> bool {
        self.parent_of(x) matches Some(p) && self.is_dirty(p)
    }

    /// Pending coverage carries over when one node `id` is added and queued,
    /// the other nodes keeping their parents and dirty flags.
    proof fn lemma_dirt_pending_added(&self, g0: &SceneGraph, id: NodeId)
        requires
            g0.core_ok(),
            g0.dirt_pending(),
            forall|x: NodeId| #[trigger] self.has(x) <==> (g0.has(x) || x == id),
            forall|x: NodeId|
                g0.has(x) ==> #[trigger] self.parent_of(x) == g0.parent_of(x) && self.is_dirty(x) == g0.is_dirty(x),
            self.pending() == g0.pending().push(id),
        ensures
            self.dirt_pending(),
    {
        assert forall|x: NodeId|
            #[trigger] self.has(x) && self.is_dirty(x) && !self.dirty_parent(x) implies self.pending().contains(x) by {
            if x == id {
                assert(self.pending()[self.pending().len() - 1] == id);
            } else {
                assert(g0.has(x));
                assert(g0.record_ok(x.0));
                if let Some(p) = g0.parent_of(x) {
                    assert(g0.live(p.0));
                    assert(g0.has(p));
                    assert(self.parent_of(p) == g0.parent_of(p));
                    assert(self.is_dirty(p) == g0.is_dirty(p));
                }
                assert(g0.has(x) && g0.is_dirty(x) && !g0.dirty_parent(x));
                assert(g0.pending().contains(x));
                let k = choose|k: int| 0 <= k < g0.pending().len() && g0.pending()[k] == x;
                assert(self.pending()[k] == x);
            }
        }
    }

    /// Every stale node lies below a pending stale node.
    proof fn lemma_dirty_covered(&self, x: NodeId)
        requires
            self.wf(),
            self.has(x),
            self.is_dirty(x),
        ensures
            exists|t: NodeId| #[trigger] self.pending().contains(t) && self.is_dirty(t) && self.is_ancestor(t, x),
        decreases self.depth@[x.0],
    {
        assert(self.record_ok(x.0));
        if self.dirty_parent(x) {
            let p = self.parent_of(x)->0;
            assert(self.live(p.0));
            self.lemma_dirty_covered(p);
            let t = choose|t: NodeId| #[trigger] self.pending().contains(t) && self.is_dirty(t) && self.is_ancestor(t, p);
            self.lemma_ancestor_down(t, x);
            assert(self.pending().contains(t) && self.is_dirty(t) && self.is_ancestor(t, x));
        } else {
            self.lemma_ancestor_self(x);
            assert(self.pending().contains(x) && self.is_dirty(x) && self.is_ancestor(x, x));
        }
    }

    /// Pending coverage carries over when only the parent of the pending
    /// node `node` changes.
    proof fn lemma_dirt_pending_moved(&self, g0: &SceneGraph, node: NodeId)
        requires
            g0.core_ok(),
            g0.dirt_pending(),
            g0.pending().contains(node),
            forall|x: NodeId| #[trigger] self.has(x) == g0.has(x),
            forall|x: NodeId|
                g0.has(x) && x != node ==> #[trigger] self.parent_of(x) == g0.parent_of(x),
            forall|x: NodeId| g0.has(x) ==> #[trigger] self.is_dirty(x) == g0.is_dirty(x),
            self.pending() == g0.pending(),
        ensures
            self.dirt_pending(),
    {
        assert forall|x: NodeId|
            #[trigger] self.has(x) && self.is_dirty(x) && !self.dirty_parent(x) implies self.pending().contains(x) by {
            if x != node {
                assert(g0.has(x));
                assert(self.parent_of(x) == g0.parent_of(x));
                assert(g0.record_ok(x.0));
                if let Some(p) = g0.parent_of(x) {
                    assert(g0.live(p.0));
                    assert(g0.has(p));
                    assert(self.is_dirty(p) == g0.is_dirty(p));
                }
                assert(g0.has(x) && g0.is_dirty(x) && !g0.dirty_parent(x));
            }
        }
    }

    /// Pending coverage carries over to a graph with the same nodes, parents,
    /// dirty flags and pending list.
    proof fn lemma_dirt_pending_kept(&self, g0: &SceneGraph)
        requires
            g0.core_ok(),
            g0.dirt_pending(),
            forall|x: NodeId| #[trigger] self.has(x) == g0.has(x),
            forall|x: NodeId|
                g0.has(x) ==> #[trigger] self.parent_of(x) == g0.parent_of(x) && self.is_dirty(x) == g0.is_dirty(x),
            self.pending() == g0.pending(),
        ensures
            self.dirt_pending(),
    {
        assert forall|x: NodeId|
            #[trigger] self.has(x) && self.is_dirty(x) && !self.dirty_parent(x) implies self.pending().contains(x) by {
            assert(g0.has(x));
            assert(g0.record_ok(x.0));
            if let Some(p) = g0.parent_of(x) {
                assert(g0.live(p.0));
                assert(g0.has(p));
                assert(self.parent_of(p) == g0.parent_of(p));
                assert(self.is_dirty(p) == g0.is_dirty(p));
            }
            assert(g0.has(x) && g0.is_dirty(x) && !g0.dirty_parent(x));
        }
    }

    /// Ids, keys, links, depths, dirty flags and metadata agree.
    spec fn core_ok(&self) -> bool {
        &&& self.index_ok()
        &&& self.editor_metadata@.len() <= self.next_id
        &&& self.slots().dom().finite()
        &&& forall|i: u64| #[trigger] self.live(i) ==> self.record_ok(i)
        &&& self.roots@.no_duplicates()
        &&& forall|j: int|
            0 <= j < self.roots@.len() ==> {
                &&& self.live((#[trigger] self.roots@[j]).0)
                &&& self.rec(self.roots@[j].0).parent is None
            }
        &&& forall|i: int|
            0 <= i < self.editor_metadata@.len() && (#[trigger] self.editor_metadata@[i]) is Some
                ==> self.live(i as u64)
    }

    /// The pending updates and the selection refer to live nodes only.
    spec fn refs_ok(&self) -> bool {
        &&& forall|j: int| 0 <= j < self.dirty_roots@.len() ==> self.live((#[trigger] self.dirty_roots@[j]).0)
        &&& self.selection.wf()
        &&& forall|j: int|
            0 <= j < self.selection.selected@.len() ==> self.live((#[trigger] self.selection.selected@[j]).0)
        &&& (self.selection.hovered matches Some(h) ==> self.live(h.0))
        &&& (self.selection.active matches Some(a) ==> self.live(a.0))
    }
}

/// A copy of `ids`.
fn copy_ids(ids: &Vec<NodeId>) -> (r: Vec<NodeId>)
    ensures
        r@ == ids@,
{
    let mut r: Vec<NodeId> = Vec::new();
    let mut i: usize = 0;
    while i < ids.len()
        invariant
            i <= ids@.len(),
            r@ == ids@.take(i as int),
        decreases ids@.len() - i,
    {
        r.push(ids[i]);
        i += 1;
        assert(r@ =~= ids@.take(i as int));
    }
    assert(ids@.take(ids@.len() as int) =~= ids@);
    r
}

/// `items` pushed onto `stack` last to first, so that popping yields them in order.
fn push_reversed(stack: &mut Vec<NodeId>, items: &[NodeId])
    ensures
        final(stack)@ == old(stack)@ + items@.reverse(),
{
    let mut k: usize = items.len();
    while k > 0
        invariant
            k <= items@.len(),
            stack@ == old(stack)@ + items@.subrange(k as int, items@.len() as int).reverse(),
        decreases k,
    {
        k = k - 1;
        let ghost before = stack@;
        stack.push(items[k]);
        proof {
            let tail = items@.subrange(k as int, items@.len() as int);
            let prev = items@.subrange(k + 1, items@.len() as int);
            assert(tail.reverse() =~= prev.reverse().push(items@[k as int]));
            assert(stack@ =~= old(stack)@ + tail.reverse());
        }
    }
    assert(items@.subrange(0, items@.len() as int) =~= items@);
}

/// Removes the first occurrence of `id` from `v`, if any.
fn remove_id(v: &mut Vec<NodeId>, id: NodeId)
    ensures
        final(v)@ == old(v)@.remove_value(id),
        forall|x: NodeId| #[trigger] final(v)@.contains(x) ==> old(v)@.contains(x),
        old(v)@.no_duplicates() ==> final(v)@.no_duplicates() && forall|x: NodeId|
            #[trigger] final(v)@.contains(x) <==> (old(v)@.contains(x) && x != id),
{
    let ghost s = v@;
    proof {
        s.index_of_first_ensures(id);
    }
    let mut i: usize = 0;
    while i < v.len()
        invariant
            v@ == s,
            s == old(v)@,
            i <= s.len(),
            forall|j: int| 0 <= j < i ==> s[j] != id,
        decreases s.len() - i,
    {
        if v[i] == id {
            proof {
                assert(s.contains(id));
                s.index_of_first_ensures(id);
                let k = s.index_of_first(id)->0;
                if k < i {
                    assert(s[k] != id);
                } else if k > i {
                    assert(s[i as int] == id);
                }
                assert(s.remove_value(id) == s.remove(i as int));
            }
            v.remove(i);
            proof {
                s.remove_ensures(i as int);
                assert forall|x: NodeId| #[trigger] v@.contains(x) implies s.contains(x) by {
                    let j = choose|j: int| 0 <= j < v@.len() && v@[j] == x;
                    if j < i {
                        assert(s[j] == x);
                    } else {
                        assert(s[j + 1] == x);
                    }
                }
                if s.no_duplicates() {
                    assert(v@.no_duplicates()) by {
                        assert forall|a: int, b: int| 0 <= a < b < v@.len() implies v@[a] != v@[b] by {
                            let a2 = if a < i { a } else { a + 1 };
                            let b2 = if b < i { b } else { b + 1 };
                            assert(v@[a] == s[a2]);
                            assert(v@[b] == s[b2]);
                        }
                    }
                    assert forall|x: NodeId| #[trigger] v@.contains(x) <==> (s.contains(x) && x != id) by {
                        if v@.contains(x) {
                            let j = choose|j: int| 0 <= j < v@.len() && v@[j] == x;
                            let j2 = if j < i { j } else { j + 1 };
                            assert(s[j2] == x);
                            assert(j2 != i);
                        }
                        if s.contains(x) && x != id {
                            let j = choose|j: int| 0 <= j < s.len() && s[j] == x;
                            assert(j != i);
                            if j < i {
                                assert(v@[j] == x);
                            } else {
                                assert(v@[j - 1] == x);
                            }
                        }
                    }
                }
            }
            return;
        }
        i = i + 1;
    }
    proof {
        assert(!s.contains(id));
        s.index_of_first_ensures(id);
        if s.no_duplicates() {
            assert forall|x: NodeId| #[trigger] v@.contains(x) <==> (s.contains(x) && x != id) by {}
        }
    }
}

/// Removing a value from a sequence without repeats drops exactly that value.
proof fn lemma_remove_value(s: Seq<NodeId>, v: NodeId)
    requires
        s.no_duplicates(),
    ensures
        s.remove_value(v).no_duplicates(),
        forall|x: NodeId| #[trigger] s.remove_value(v).contains(x) <==> (s.contains(x) && x != v),
{
    s.index_of_first_ensures(v);
    if s.contains(v) {
        let i = s.index_of_first(v)->0;
        let r = s.remove(i);
        s.remove_ensures(i);
        assert(r.no_duplicates()) by {
            assert forall|a: int, b: int| 0 <= a < b < r.len() implies r[a] != r[b] by {
                let a2 = if a < i { a } else { a + 1 };
                let b2 = if b < i { b } else { b + 1 };
                assert(r[a] == s[a2]);
                assert(r[b] == s[b2]);
            }
        }
        assert forall|x: NodeId| #[trigger] r.contains(x) <==> (s.contains(x) && x != v) by {
            if r.contains(x) {
                let j = choose|j: int| 0 <= j < r.len() && r[j] == x;
                let j2 = if j < i { j } else { j + 1 };
                assert(s[j2] == x);
                assert(j2 != i);
            }
            if s.contains(x) && x != v {
                let j = choose|j: int| 0 <= j < s.len() && s[j] == x;
                assert(j != i);
                if j < i {
                    assert(r[j] == x);
                } else {
                    assert(r[j - 1] == x);
                }
            }
        }
    }
}

/// Appends `items` to `v` in order.
fn append_all(v: &mut Vec<NodeId>, items: &[NodeId])
    ensures
        final(v)@ == old(v)@ + items@,
{
    let mut k: usize = 0;
    while k < items.len()
        invariant
            k <= items@.len(),
            v@ == old(v)@ + items@.take(k as int),
        decreases items@.len() - k,
    {
        v.push(items[k]);
        k = k + 1;
        proof {
            assert(items@.take(k as int) =~= items@.take(k - 1).push(items@[k - 1]));
            assert(v@ =~= old(v)@ + items@.take(k as int));
        }
    }
    assert(items@.take(items@.len() as int) =~= items@);
}

/// A sequence of distinct ids between 1 and `n` (exclusive) is shorter than `n`.
proof fn lemma_distinct_ids_bounded(s: Seq<NodeId>, n: u64)
    requires
        1 <= n,
        s.no_duplicates(),
        forall|j: int| 0 <= j < s.len() ==> 1 <= (#[trigger] s[j]).0 < n,
    ensures
        s.len() < n,
{
    let f = |x: NodeId| x.0 as int;
    let m = s.map_values(f);
    assert(m.no_duplicates()) by {
        assert forall|a: int, b: int| 0 <= a < b < m.len() implies m[a] != m[b] by {
            assert(s[a] != s[b]);
            assert(s[a].0 != s[b].0);
        }
    }
    m.unique_seq_to_set();
    vstd::set_lib::lemma_int_range(1, n as int);
    assert(m.to_set().subset_of(vstd::set_lib::set_int_range(1, n as int))) by {
        assert forall|v: int| m.to_set().contains(v) implies vstd::set_lib::set_int_range(1, n as int).contains(v) by {
            let j = choose|j: int| 0 <= j < m.len() && m[j] == v;
            assert(1 <= s[j].0 < n);
        }
    }
    vstd::set_lib::lemma_len_subset(m.to_set(), vstd::set_lib::set_int_range(1, n as int));
}

proof fn lemma_concat_contains(a: Seq<NodeId>, b: Seq<NodeId>)
    ensures
        forall|v: NodeId| #[trigger] (a + b).contains(v) <==> (a.contains(v) || b.contains(v)),
{
    assert forall|v: NodeId| #[trigger] (a + b).contains(v) <==> (a.contains(v) || b.contains(v)) by {
        if a.contains(v) {
            let i = choose|i: int| 0 <= i < a.len() && a[i] == v;
            assert((a + b)[i] == v);
        }
        if b.contains(v) {
            let i = choose|i: int| 0 <= i < b.len() && b[i] == v;
            assert((a + b)[a.len() + i] == v);
        }
        if (a + b).contains(v) {
            let i = choose|i: int| 0 <= i < (a + b).len() && (a + b)[i] == v;
            if i < a.len() {
                assert(a[i] == v);
            } else {
                assert(b[i - a.len()] == v);
            }
        }
    }
}

proof fn lemma_concat_no_dup(a: Seq<NodeId>, b: Seq<NodeId>)
    requires
        a.no_duplicates(),
        b.no_duplicates(),
        forall|v: NodeId| a.contains(v) ==> !b.contains(v),
    ensures
        (a + b).no_duplicates(),
{
    let c = a + b;
    assert forall|i: int, j: int| 0 <= i < c.len() && 0 <= j < c.len() && i != j implies c[i] != c[j] by {
        if i < a.len() && j >= a.len() {
            assert(a.contains(c[i]));
            assert(b[j - a.len()] == c[j]);
            assert(b.contains(c[j]));
        } else if j < a.len() && i >= a.len() {
            assert(a.contains(c[j]));
            assert(b[i - a.len()] == c[i]);
            assert(b.contains(c[i]));
        } else if i >= a.len() && j >= a.len() {
            assert(b[i - a.len()] == c[i]);
            assert(b[j - a.len()] == c[j]);
        }
    }
}

proof fn lemma_reverse(s: Seq<NodeId>)
    ensures
        forall|v: NodeId| #[trigger] s.reverse().contains(v) <==> s.contains(v),
        s.no_duplicates() ==> s.reverse().no_duplicates(),
        s.reverse().len() == s.len(),
{
    let r = s.reverse();
    assert forall|v: NodeId| #[trigger] r.contains(v) <==> s.contains(v) by {
        if s.contains(v) {
            let i = choose|i: int| 0 <= i < s.len() && s[i] == v;
            assert(r[s.len() - 1 - i] == v);
        }
        if r.contains(v) {
            let i = choose|i: int| 0 <= i < r.len() && r[i] == v;
            assert(s[s.len() - 1 - i] == v);
        }
    }
    if s.no_duplicates() {
        assert forall|i: int, j: int| 0 <= i < r.len() && 0 <= j < r.len() && i != j implies r[i] != r[j] by {
            assert(r[i] == s[s.len() - 1 - i]);
            assert(r[j] == s[s.len() - 1 - j]);
        }
    }
}

proof fn lemma_push_contains(s: Seq<NodeId>, x: NodeId)
    ensures
        forall|v: NodeId| #[trigger] s.push(x).contains(v) <==> (s.contains(v) || v == x),
{
    assert forall|v: NodeId| #[trigger] s.push(x).contains(v) <==> (s.contains(v) || v == x) by {
        if s.contains(v) {
            let i = choose|i: int| 0 <= i < s.len() && s[i] == v;
            assert(s.push(x)[i] == v);
        }
        if v == x {
            assert(s.push(x)[s.len() as int] == v);
        }
        if s.push(x).contains(v) {
            let i = choose|i: int| 0 <= i < s.len() + 1 && s.push(x)[i] == v;
            if i < s.len() {
                assert(s[i] == v);
            }
        }
    }
}

proof fn lemma_drop_last_contains(s: Seq<NodeId>)
    requires
        s.len() > 0,
    ensures
        forall|v: NodeId| #[trigger] s.contains(v) <==> (s.drop_last().contains(v) || v == s.last()),
        s.no_duplicates() ==> s.drop_last().no_duplicates() && !s.drop_last().contains(s.last()),
{
    assert(s =~= s.drop_last().push(s.last()));
    lemma_push_contains(s.drop_last(), s.last());
    if s.no_duplicates() {
        if s.drop_last().contains(s.last()) {
            let i = choose|i: int| 0 <= i < s.drop_last().len() && s.drop_last()[i] == s.last();
            assert(s[i] == s[s.len() - 1]);
        }
    }
}

impl SceneGraph {
    spec fn parent_raw(&self, x: u64) -> u64 {
        if self.live(x) {
            match self.rec(x).parent {
                Some(p) => p.0,
                None => 0,
            }
        } else {
            0
        }
    }

    /// The ancestor `k` levels above `x`.
    spec fn anc(&self, x: u64, k: nat) -> u64
        decreases k,
    {
        if k == 0 {
            x
        } else {
            self.anc(self.parent_raw(x), (k - 1) as nat)
        }
    }

    /// Whether `a` is `x` or one of its ancestors.
    pub closed spec fn is_ancestor(&self, a: NodeId, x: NodeId) -> bool {
        &&& self.live(x.0)
        &&& self.live(a.0)
        &&& self.depth@[x.0] >= self.depth@[a.0]
        &&& self.anc(x.0, (self.depth@[x.0] - self.depth@[a.0]) as nat) == a.0
    }

    proof fn lemma_ancestor_self(&self, a: NodeId)
        requires
            self.wf(),
            self.has(a),
        ensures
            self.is_ancestor(a, a),
    {
    }

    /// Stepping up from a proper descendant stays below the ancestor.
    proof fn lemma_ancestor_up(&self, a: NodeId, x: NodeId)
        requires
            self.wf(),
            self.is_ancestor(a, x),
            x != a,
        ensures
            self.parent_of(x) is Some,
            self.is_ancestor(a, self.parent_of(x)->0),
            self.depth@[x.0] > self.depth@[a.0],
    {
        assert(self.record_ok(x.0));
        if self.depth@[x.0] == self.depth@[a.0] {
            assert(self.anc(x.0, 0) == x.0);
            assert(x == NodeId(x.0));
        }
        let p = self.rec(x.0).parent->0;
        assert(self.live(p.0));
        assert(self.anc(x.0, (self.depth@[x.0] - self.depth@[a.0]) as nat) == self.anc(
            p.0,
            (self.depth@[p.0] - self.depth@[a.0]) as nat,
        ));
    }

    /// A child of a descendant of `a` is a descendant of `a`.
    proof fn lemma_ancestor_down(&self, a: NodeId, c: NodeId)
        requires
            self.wf(),
            self.has(c),
            self.parent_of(c) is Some,
            self.is_ancestor(a, self.parent_of(c)->0),
        ensures
            self.is_ancestor(a, c),
    {
        assert(self.record_ok(c.0));
        let p = self.rec(c.0).parent->0;
        assert(self.anc(c.0, (self.depth@[c.0] - self.depth@[a.0]) as nat) == self.anc(
            p.0,
            (self.depth@[p.0] - self.depth@[a.0]) as nat,
        ));
    }

    /// Ancestry is transitive.
    proof fn lemma_ancestor_trans(&self, a: NodeId, b: NodeId, c: NodeId)
        requires
            self.wf(),
            self.is_ancestor(a, b),
            self.is_ancestor(b, c),
        ensures
            self.is_ancestor(a, c),
        decreases self.depth@[c.0],
    {
        if c != b {
            self.lemma_ancestor_up(b, c);
            let p = self.parent_of(c)->0;
            self.lemma_ancestor_trans(a, b, p);
            self.lemma_ancestor_down(a, c);
        }
    }

    /// Two ancestors of one node lie on one chain.
    proof fn lemma_ancestors_ordered(&self, a: NodeId, b: NodeId, x: NodeId)
        requires
            self.wf(),
            self.is_ancestor(a, x),
            self.is_ancestor(b, x),
        ensures
            self.is_ancestor(a, b) || self.is_ancestor(b, a),
        decreases self.depth@[x.0],
    {
        if x != a && x != b {
            self.lemma_ancestor_up(a, x);
            self.lemma_ancestor_up(b, x);
            self.lemma_ancestors_ordered(a, b, self.parent_of(x)->0);
        }
    }

    /// Everything below a dirty node is dirty.
    proof fn lemma_dirty_below(&self, a: NodeId, x: NodeId)
        requires
            self.wf(),
            self.is_ancestor(a, x),
            self.is_dirty(a),
        ensures
            self.is_dirty(x),
        decreases self.depth@[x.0],
    {
        if x != a {
            self.lemma_ancestor_up(a, x);
            let p = self.parent_of(x)->0;
            self.lemma_dirty_below(a, p);
            assert(self.record_ok(x.0));
            assert(self.record_ok(p.0));
            assert(self.rec(p.0).children@.contains(NodeId(x.0)));
            let j = choose|j: int| 0 <= j < self.rec(p.0).children@.len() && self.rec(p.0).children@[j] == NodeId(x.0);
            assert(self.rec(self.rec(p.0).children@[j].0).dirty);
        }
    }

    /// The ids a depth-first walk yields from `stack` within `fuel` steps.
    pub open spec fn dfs_trace(&self, stack: Seq<NodeId>, fuel: nat) -> Seq<NodeId>
        decreases fuel,
    {
        if fuel == 0 || stack.len() == 0 {
            Seq::empty()
        } else {
            let x = stack.last();
            seq![x] + self.dfs_trace(stack.drop_last() + self.children_of(x).reverse(), (fuel - 1) as nat)
        }
    }

    /// The ids a depth-first walk yields from the stack `stack` (top last):
    /// pop a node, yield it, push its children last to first.
    pub open spec fn dfs_order(&self, stack: Seq<NodeId>) -> Seq<NodeId> {
        self.dfs_trace(stack, self.next_raw() as nat)
    }

    /// Invariant of a depth-first walk started from `init` (all at depth `d`)
    /// that has yielded `out` and still holds `stack`.
    spec fn walk_inv(&self, init: Seq<NodeId>, d: nat, stack: Seq<NodeId>, out: Seq<NodeId>) -> bool {
        &&& stack.no_duplicates()
        &&& out.no_duplicates()
        &&& forall|x: NodeId| stack.contains(x) ==> !out.contains(x)
        &&& forall|x: NodeId|
            #![trigger stack.contains(x)]
            #![trigger out.contains(x)]
            (stack.contains(x) || out.contains(x)) ==> {
                &&& self.live(x.0)
                &&& self.depth@[x.0] >= d
                &&& (init.contains(x) || (self.parent_of(x) is Some && out.contains(self.parent_of(x)->0)))
                &&& exists|s: NodeId| init.contains(s) && self.is_ancestor(s, x)
            }
        &&& forall|x: NodeId| #[trigger] init.contains(x) ==> stack.contains(x) || out.contains(x)
        &&& forall|y: NodeId, c: NodeId|
            #![trigger out.contains(y), self.children_of(y).contains(c)]
            out.contains(y) && self.children_of(y).contains(c) ==> stack.contains(c) || out.contains(c)
    }

    /// Every yielded node that is not a start node comes after its parent.
    spec fn parents_first(&self, init: Seq<NodeId>, out: Seq<NodeId>) -> bool {
        forall|j: int|
            0 <= j < out.len() ==> init.contains(#[trigger] out[j]) || (self.parent_of(out[j]) is Some
                && exists|k: int| 0 <= k < j && out[k] == self.parent_of(out[j])->0)
    }

    /// Whether `init` is a valid start for a walk: distinct live nodes, all at depth `d`.
    spec fn walk_start(&self, init: Seq<NodeId>, d: nat) -> bool {
        &&& init.no_duplicates()
        &&& forall|j: int| 0 <= j < init.len() ==> self.live((#[trigger] init[j]).0) && self.depth@[init[j].0] == d
    }

    proof fn lemma_walk_init(&self, init: Seq<NodeId>, d: nat)
        requires
            self.wf(),
            self.walk_start(init, d),
        ensures
            self.walk_inv(init, d, init, Seq::empty()),
    {
        assert forall|x: NodeId| init.contains(x) implies exists|s: NodeId| init.contains(s) && self.is_ancestor(s, x) by {
            let j = choose|j: int| 0 <= j < init.len() && init[j] == x;
            assert(self.live(init[j].0));
            self.lemma_ancestor_self(x);
        }
    }

    proof fn lemma_walk_step(&self, init: Seq<NodeId>, d: nat, stack: Seq<NodeId>, out: Seq<NodeId>)
        requires
            self.wf(),
            self.walk_start(init, d),
            self.walk_inv(init, d, stack, out),
            stack.len() > 0,
        ensures
            self.walk_inv(
                init,
                d,
                stack.drop_last() + self.children_of(stack.last()).reverse(),
                out.push(stack.last()),
            ),
    {
        let x = stack.last();
        let cs = self.children_of(x);
        let rest = stack.drop_last();
        let stack2 = rest + cs.reverse();
        let out2 = out.push(x);
        lemma_drop_last_contains(stack);
        lemma_reverse(cs);
        lemma_concat_contains(rest, cs.reverse());
        lemma_push_contains(out, x);
        assert(stack.contains(x));
        assert(self.live(x.0));
        assert(self.record_ok(x.0));
        // Every child of `x` is new to the walk.
        assert forall|c: NodeId| cs.contains(c) implies {
            &&& self.live(c.0)
            &&& self.parent_of(c) == Some(x)
            &&& self.depth@[c.0] == self.depth@[x.0] + 1
            &&& !stack.contains(c)
            &&& !out.contains(c)
            &&& !init.contains(c)
        } by {
            let j = choose|j: int| 0 <= j < cs.len() && cs[j] == c;
            assert(self.live(cs[j].0));
            assert(self.record_ok(c.0));
            assert(self.depth@[c.0] == self.depth@[x.0] + 1);
            if init.contains(c) {
                let k = choose|k: int| 0 <= k < init.len() && init[k] == c;
                assert(self.depth@[init[k].0] == d);
            }
            if stack.contains(c) || out.contains(c) {
                assert(out.contains(x));
            }
        }
        assert(stack2.no_duplicates()) by {
            lemma_concat_no_dup(rest, cs.reverse());
        }
        assert(out2.no_duplicates()) by {
            assert forall|i: int, j: int| 0 <= i < out2.len() && 0 <= j < out2.len() && i != j implies out2[i]
                != out2[j] by {
                if i == out.len() {
                    assert(out.contains(out2[j]));
                } else if j == out.len() {
                    assert(out.contains(out2[i]));
                }
            }
        }
        assert forall|v: NodeId|
            #![trigger stack2.contains(v)]
            #![trigger out2.contains(v)]
            (stack2.contains(v) || out2.contains(v)) ==> {
                &&& self.live(v.0)
                &&& self.depth@[v.0] >= d
                &&& (init.contains(v) || (self.parent_of(v) is Some && out2.contains(self.parent_of(v)->0)))
                &&& exists|s: NodeId| init.contains(s) && self.is_ancestor(s, v)
            } by {
            if stack2.contains(v) || out2.contains(v) {
                if cs.contains(v) {
                    assert(exists|s: NodeId| init.contains(s) && self.is_ancestor(s, x));
                    let s = choose|s: NodeId| init.contains(s) && self.is_ancestor(s, x);
                    self.lemma_ancestor_down(s, v);
                } else {
                    assert(stack.contains(v) || out.contains(v));
                    if !init.contains(v) {
                        assert(out.contains(self.parent_of(v)->0));
                    }
                }
            }
        }
        assert forall|v: NodeId| stack2.contains(v) implies !out2.contains(v) by {
            if cs.contains(v) {
            } else {
                assert(rest.contains(v));
                assert(stack.contains(v));
            }
        }
        assert forall|v: NodeId| #[trigger] init.contains(v) implies stack2.contains(v) || out2.contains(v) by {
            assert(stack.contains(v) || out.contains(v));
        }
        assert forall|y: NodeId, c: NodeId|
            #![trigger out2.contains(y), self.children_of(y).contains(c)]
            out2.contains(y) && self.children_of(y).contains(c) implies stack2.contains(c) || out2.contains(c) by {
            if y == x {
                assert(cs.reverse().contains(c));
            } else {
                assert(out.contains(y));
                assert(stack.contains(c) || out.contains(c));
            }
        }
    }

    /// At the end of a walk every descendant of a start node has been yielded.
    proof fn lemma_walk_done(&self, init: Seq<NodeId>, d: nat, out: Seq<NodeId>, s: NodeId, x: NodeId)
        requires
            self.wf(),
            self.walk_inv(init, d, Seq::empty(), out),
            init.contains(s),
            self.is_ancestor(s, x),
        ensures
            out.contains(x),
        decreases self.depth@[x.0],
    {
        if x != s {
            self.lemma_ancestor_up(s, x);
            let p = self.parent_of(x)->0;
            self.lemma_walk_done(init, d, out, s, p);
            assert(self.record_ok(x.0));
            assert(self.children_of(p).contains(x));
            assert(Seq::<NodeId>::empty().contains(x) || out.contains(x));
        } else {
            assert(Seq::<NodeId>::empty().contains(x) || out.contains(x));
        }
    }

    /// Whether the nodes, links and metadata of `self` are those of `old`
    /// after removing node `id` with all its descendants: their records, ids
    /// and metadata are gone, and the parent's child list (or the root list)
    /// no longer holds `id`.
    pub open spec fn records_removed(&self, old: &SceneGraph, id: NodeId) -> bool {
        &&& self.next_raw() == old.next_raw()
        &&& self.stored() <= old.stored()
        &&& forall|x: NodeId| #[trigger] self.has(x) <==> (old.has(x) && !old.is_ancestor(id, x))
        &&& forall|x: NodeId|
            self.has(x) ==> {
                &&& self.node(x) == old.node(x)
                &&& self.parent_of(x) == old.parent_of(x)
                &&& self.is_dirty(x) == old.is_dirty(x)
                &&& self.depth_of(x) == old.depth_of(x)
                &&& self.children_of(x) == if old.parent_of(id) == Some(x) {
                    old.children_of(x).remove_value(id)
                } else {
                    old.children_of(x)
                }
            }
        &&& forall|x: NodeId|
            #[trigger] self.metadata_of(x) == if self.has(x) {
                old.metadata_of(x)
            } else {
                None
            }
        &&& self.root_ids() == if old.parent_of(id) is None {
            old.root_ids().remove_value(id)
        } else {
            old.root_ids()
        }
        &&& self.policy() == old.policy()
    }

    /// Whether `self` is `old` after removing node `id` with all its
    /// descendants, the selection and the pending updates keeping only the
    /// nodes that are left.
    pub open spec fn removed_from(&self, old: &SceneGraph, id: NodeId) -> bool {
        &&& self.records_removed(old, id)
        &&& self.pending() == old.pending().filter(|x: NodeId| self.has(x))
        &&& forall|x: NodeId|
            #[trigger] self.selection_spec().selected_set().contains(x) <==> (
            old.selection_spec().selected_set().contains(x) && self.has(x))
        &&& self.selection_spec().hovered == match old.selection_spec().hovered {
            Some(h) => if self.has(h) {
                Some(h)
            } else {
                None
            },
            None => None,
        }
        &&& self.selection_spec().active == match old.selection_spec().active {
            Some(a) => if self.has(a) {
                Some(a)
            } else {
                None
            },
            None => None,
        }
    }

    /// Removes node `id` and all its descendants. Fails with `InvalidId`,
    /// changing nothing, when `id` names no node.
    pub fn remove(&mut self, id: NodeId) -> (r: Result<(), ValidationError>)
        requires
            old(self).wf(),
        ensures
            final(self).wf(),
            match r {
                Ok(()) => {
                    &&& old(self).has(id)
                    &&& final(self).removed_from(old(self), id)
                    &&& !final(self).root_ids().contains(id)
                    &&& forall|x: NodeId| #[trigger] final(self).has(x) ==> !final(self).children_of(x).contains(id)
                },
                Err(e) => !old(self).has(id) && e == ValidationError::InvalidId && *final(self)
                    == *old(self),
            },
    {
        if self.key(id).is_none() {
            return Err(ValidationError::InvalidId);
        }
        let ghost g0 = *self;
        self.remove_records(id);
        let ghost g2 = *self;
        let pending = self.retain_live(&self.dirty_roots);
        let retained = self.retain_live(&self.selection.selected);
        let _ = replace_selection(&mut self.selection, retained);
        if let Some(h) = self.selection.hovered {
            if self.key(h).is_none() {
                self.selection.hovered = None;
            }
        }
        if let Some(a) = self.selection.active {
            if self.key(a).is_none() {
                self.selection.active = None;
            }
        }
        self.dirty_roots = pending;
        proof {
            assert forall|x: u64| #[trigger] self.live(x) == g2.live(x) && self.rec(x) == g2.rec(x) by {}
            assert forall|x: u64| #[trigger] self.live(x) implies self.record_ok(x) by {
                assert(g2.live(x));
                assert(g2.record_ok(x));
            }
            assert forall|j: int| 0 <= j < self.roots@.len() implies {
                &&& self.live((#[trigger] self.roots@[j]).0)
                &&& self.rec(self.roots@[j].0).parent is None
            } by {
                assert(g2.live(self.roots@[j].0));
            }
            assert forall|i: int|
                0 <= i < self.editor_metadata@.len() && (#[trigger] self.editor_metadata@[i]) is Some implies self.live(i as u64) by {
                assert(g2.live(i as u64));
            }
            assert(self.core_ok());
            assert forall|j: int| 0 <= j < self.dirty_roots@.len() implies self.live((#[trigger] self.dirty_roots@[j]).0) by {
                g2.dirty_roots@.lemma_filter_pred(|x: NodeId| g2.has(x), j);
                assert(g2.has(self.dirty_roots@[j]));
            }
            assert forall|j: int| 0 <= j < self.selection.selected@.len() implies self.live((#[trigger] self.selection.selected@[j]).0) by {
                let x = self.selection.selected@[j];
                assert(self.selection.selected@.contains(x));
                assert(self.selection.selected_set().contains(x));
                assert(retained@.contains(x));
                let k = choose|k: int| 0 <= k < retained@.len() && retained@[k] == x;
                g2.selection.selected@.lemma_filter_pred(|y: NodeId| g2.has(y), k);
                assert(g2.has(x));
            }
            assert(self.refs_ok());
            assert((|x: NodeId| g2.has(x)) =~= (|x: NodeId| self.has(x)));
            assert forall|x: NodeId|
                #[trigger] self.selection_spec().selected_set().contains(x) <==> (
                g0.selection_spec().selected_set().contains(x) && self.has(x)) by {
                if self.selection_spec().selected_set().contains(x) {
                    assert(retained@.contains(x));
                    let k = choose|k: int| 0 <= k < retained@.len() && retained@[k] == x;
                    g2.selection.selected@.lemma_filter_pred(|y: NodeId| g2.has(y), k);
                    assert(g2.has(x));
                    g2.selection.selected@.lemma_filter_contains_rev(|y: NodeId| g2.has(y), x);
                }
                if g0.selection_spec().selected_set().contains(x) && self.has(x) {
                    let k = choose|k: int| 0 <= k < g2.selection.selected@.len() && g2.selection.selected@[k] == x;
                    assert(g2.has(x));
                    g2.selection.selected@.lemma_filter_contains(|y: NodeId| g2.has(y), k);
                }
            }
            assert forall|x: NodeId| #[trigger] self.has(x) == g2.has(x) && self.metadata_of(x) == g2.metadata_of(x)
                && self.node(x) == g2.node(x) && self.parent_of(x) == g2.parent_of(x) && self.children_of(x)
                == g2.children_of(x) && self.is_dirty(x) == g2.is_dirty(x) && self.depth_of(x) == g2.depth_of(x) by {}
            g0.lemma_ancestor_self(id);
            assert(!self.has(id));
            lemma_forest_lists(self);
        }
        Ok(())
    }

    /// Removes the records of `id` and its descendants, leaving the selection
    /// and the pending updates for the caller to filter.
    #[verifier::rlimit(30)]
    fn remove_records(&mut self, id: NodeId)
        requires
            old(self).wf(),
            old(self).has(id),
        ensures
            final(self).core_ok(),
            final(self).records_removed(old(self), id),
            final(self).selection == old(self).selection,
            final(self).dirty_roots == old(self).dirty_roots,
    {
        let ghost g0 = *self;
        proof {
            assert(g0.record_ok(id.0));
        }
        let mut start: Vec<NodeId> = Vec::new();
        start.push(id);
        proof {
            assert(start@ == seq![id]);
            assert(self.walk_start(start@, self.depth@[id.0]));
        }
        let removed = self.walk(start, Ghost(self.depth@[id.0]));
        let ghost rs = removed@;
        proof {
            assert forall|x: NodeId| #[trigger] rs.contains(x) <==> g0.is_ancestor(id, x) by {
                if g0.is_ancestor(id, x) {
                    assert(seq![id].contains(id));
                }
            }
            assert forall|j: int| 0 <= j < rs.len() implies g0.live((#[trigger] rs[j]).0) by {
                assert(rs.contains(rs[j]));
            }
        }
        self.unlink(id);
        let ghost g1 = *self;
        proof {
            assert forall|x: u64| #[trigger] g1.live(x) implies g1.slots().contains_key(g1.key_of(x)) && g1.rec(x).id == NodeId(x) by {
                assert(g0.live(x));
                assert(g0.record_ok(x));
                if let Some(p) = g0.rec(id.0).parent {
                    if x != p.0 {
                        assert(g0.record_ok(p.0));
                        assert(g0.key_of(x) != g0.key_of(p.0));
                    }
                }
            }
            assert forall|j: int| 0 <= j < rs.len() implies g1.live((#[trigger] rs[j]).0) by {
                assert(g0.live(rs[j].0));
            }
        }
        self.drop_records(&removed);
        proof {
            self.lemma_records_removed(&g0, &g1, id, rs);
        }
    }

    /// The state left by `unlink` and `drop_records` satisfies the graph
    /// invariant and the removal contract.
    #[verifier::rlimit(40)]
    proof fn lemma_records_removed(&self, g0: &SceneGraph, g1: &SceneGraph, id: NodeId, rs: Seq<NodeId>)
        requires
            g0.wf(),
            g0.has(id),
            forall|x: NodeId| #[trigger] rs.contains(x) <==> g0.is_ancestor(id, x),
            g1.next_id == g0.next_id,
            g1.id_to_key == g0.id_to_key,
            g1.editor_metadata == g0.editor_metadata,
            g1.layer_policy == g0.layer_policy,
            g1.depth == g0.depth,
            g1.slots().dom() == g0.slots().dom(),
            match g0.rec(id.0).parent {
                Some(p) => {
                    &&& g1.roots == g0.roots
                    &&& forall|key: DefaultKey|
                        key != g0.key_of(p.0) ==> #[trigger] g1.slots()[key] == g0.slots()[key]
                    &&& g1.rec(p.0).id == g0.rec(p.0).id
                    &&& g1.rec(p.0).node == g0.rec(p.0).node
                    &&& g1.rec(p.0).parent == g0.rec(p.0).parent
                    &&& g1.rec(p.0).dirty == g0.rec(p.0).dirty
                    &&& g1.rec(p.0).children@ == g0.rec(p.0).children@.remove_value(id)
                },
                None => {
                    &&& g1.slots() == g0.slots()
                    &&& g1.roots@ == g0.roots@.remove_value(id)
                },
            },
            self.next_id == g1.next_id,
            self.id_to_key@.len() == g1.id_to_key@.len(),
            forall|i: int|
                0 <= i < self.id_to_key@.len() ==> #[trigger] self.id_to_key@[i] == if rs.contains(
                    NodeId(i as u64),
                ) {
                    None
                } else {
                    g1.id_to_key@[i]
                },
            forall|key: DefaultKey|
                #[trigger] self.slots().contains_key(key) <==> (g1.slots().contains_key(key)
                    && forall|t: int| 0 <= t < rs.len() ==> key != g1.key_of(#[trigger] rs[t].0)),
            forall|key: DefaultKey|
                self.slots().contains_key(key) ==> #[trigger] self.slots()[key] == g1.slots()[key],
            self.editor_metadata@.len() == g1.editor_metadata@.len(),
            forall|i: int|
                0 <= i < self.editor_metadata@.len() ==> #[trigger] self.editor_metadata@[i]
                    == if rs.contains(NodeId(i as u64)) {
                    None
                } else {
                    g1.editor_metadata@[i]
                },
            self.roots == g1.roots,
            self.layer_policy == g1.layer_policy,
            self.depth == g1.depth,
        ensures
            self.core_ok(),
            self.records_removed(g0, id),
    {
        let p_opt = g0.rec(id.0).parent;
        assert(g0.record_ok(id.0));
        assert(self.slots().dom().subset_of(g0.slots().dom()));
        vstd::set_lib::lemma_len_subset(self.slots().dom(), g0.slots().dom());
        assert forall|x: u64| #[trigger] self.live(x) <==> (g0.live(x) && !rs.contains(NodeId(x))) by {
            if x < self.id_to_key@.len() {
                assert(self.id_to_key@[x as int] == if rs.contains(NodeId(x)) { None } else { g1.id_to_key@[x as int] });
            }
        }
        assert forall|x: NodeId| #[trigger] self.has(x) <==> (g0.has(x) && !g0.is_ancestor(id, x)) by {
            assert(self.live(x.0) <==> (g0.live(x.0) && !rs.contains(NodeId(x.0))));
            assert(NodeId(x.0) == x);
        }
        // Records of the nodes that are left.
        assert forall|x: u64| self.live(x) implies {
            &&& #[trigger] self.key_of(x) == g0.key_of(x)
            &&& self.slots().contains_key(self.key_of(x))
            &&& self.rec(x).id == g0.rec(x).id
            &&& self.rec(x).node == g0.rec(x).node
            &&& self.rec(x).parent == g0.rec(x).parent
            &&& self.rec(x).dirty == g0.rec(x).dirty
            &&& self.rec(x).children@ == if p_opt == Some(NodeId(x)) {
                g0.rec(x).children@.remove_value(id)
            } else {
                g0.rec(x).children@
            }
        } by {
            assert(g0.live(x));
            assert(g0.record_ok(x));
            assert(self.id_to_key@[x as int] == g0.id_to_key@[x as int]);
            let key = g0.key_of(x);
            assert forall|t: int| 0 <= t < rs.len() implies key != g1.key_of(#[trigger] rs[t].0) by {
                assert(rs.contains(rs[t]));
                assert(g0.live(rs[t].0));
                assert(g0.record_ok(rs[t].0));
                if key == g0.key_of(rs[t].0) {
                    assert(rs[t] == NodeId(rs[t].0));
                    assert(rs.contains(NodeId(x)));
                }
            }
            assert(g1.slots().contains_key(key));
            assert(self.slots().contains_key(key));
            assert(self.slots()[key] == g1.slots()[key]);
            if let Some(p) = p_opt {
                if p.0 != x {
                    assert(g0.record_ok(p.0));
                    assert(key != g0.key_of(p.0));
                } else {
                    assert(NodeId(x) == p);
                }
            }
        }
        assert forall|y: u64| #[trigger] self.live(y) implies self.record_ok(y) by {
            assert(g0.live(y));
            assert(g0.record_ok(y));
            assert(self.key_of(y) == g0.key_of(y));
            let r = self.rec(y);
            let r0 = g0.rec(y);
            if let Some(q) = r0.parent {
                assert(g0.live(q.0));
                if !self.live(q.0) {
                    assert(rs.contains(NodeId(q.0)));
                    assert(NodeId(q.0) == q);
                    assert(g0.is_ancestor(id, q));
                    g0.lemma_ancestor_down(id, NodeId(y));
                    assert(rs.contains(NodeId(y)));
                }
                assert(self.key_of(q.0) == g0.key_of(q.0));
                assert(g0.rec(q.0).children@.contains(NodeId(y)));
                if p_opt == Some(q) {
                    assert(g0.record_ok(q.0));
                    lemma_remove_value(g0.rec(q.0).children@, id);
                    assert(NodeId(y) != id);
                }
            } else {
                assert(g0.roots@.contains(NodeId(y)));
                if p_opt is None {
                    lemma_remove_value(g0.roots@, id);
                    assert(NodeId(y) != id);
                }
            }
            if p_opt == Some(NodeId(y)) {
                lemma_remove_value(r0.children@, id);
            }
            assert forall|j: int| 0 <= j < r.children@.len() implies {
                &&& self.live((#[trigger] r.children@[j]).0)
                &&& self.rec(r.children@[j].0).parent == Some(NodeId(y))
                &&& (r.dirty ==> self.rec(r.children@[j].0).dirty)
            } by {
                let c = r.children@[j];
                assert(r.children@.contains(c));
                assert(r0.children@.contains(c));
                let j0 = choose|j0: int| 0 <= j0 < r0.children@.len() && r0.children@[j0] == c;
                assert(g0.live(c.0));
                assert(g0.rec(c.0).parent == Some(NodeId(y)));
                if !self.live(c.0) {
                    assert(rs.contains(NodeId(c.0)));
                    assert(NodeId(c.0) == c);
                    assert(g0.is_ancestor(id, c));
                    if c == id {
                        assert(p_opt == Some(NodeId(y)));
                    } else {
                        g0.lemma_ancestor_up(id, c);
                        assert(rs.contains(NodeId(y)));
                    }
                }
            }
        }
        if p_opt is None {
            lemma_remove_value(g0.roots@, id);
        }
        assert forall|j: int| 0 <= j < self.roots@.len() implies {
            &&& self.live((#[trigger] self.roots@[j]).0)
            &&& self.rec(self.roots@[j].0).parent is None
        } by {
            let x = self.roots@[j];
            assert(self.roots@.contains(x));
            assert(g0.roots@.contains(x));
            let j0 = choose|j0: int| 0 <= j0 < g0.roots@.len() && g0.roots@[j0] == x;
            assert(g0.live(x.0));
            assert(g0.rec(x.0).parent is None);
            if !self.live(x.0) {
                assert(rs.contains(NodeId(x.0)));
                assert(NodeId(x.0) == x);
                if x != id {
                    g0.lemma_ancestor_up(id, x);
                } else {
                    assert(p_opt is None);
                }
            }
        }
        assert forall|i: int|
            0 <= i < self.editor_metadata@.len() && (#[trigger] self.editor_metadata@[i]) is Some implies self.live(i as u64) by {
            assert(g1.editor_metadata@[i] is Some);
            assert(g0.live(i as u64));
        }
        assert(self.slots().dom().finite()) by {
            assert(self.slots().dom().subset_of(g1.slots().dom()));
            vstd::set_lib::lemma_len_subset(self.slots().dom(), g1.slots().dom());
        }
        assert(self.core_ok());
        assert forall|x: NodeId| #[trigger] self.metadata_of(x) == if self.has(x) {
            g0.metadata_of(x)
        } else {
            None
        } by {
            if x.0 < self.editor_metadata@.len() {
                assert(NodeId(x.0) == x);
                if !self.has(x) && !rs.contains(x) {
                    if g0.editor_metadata@[x.0 as int] is Some {
                        assert(g0.live(x.0));
                    }
                }
            }
        }
        assert forall|x: NodeId| self.has(x) implies {
            &&& self.node(x) == g0.node(x)
            &&& self.parent_of(x) == g0.parent_of(x)
            &&& self.is_dirty(x) == g0.is_dirty(x)
            &&& self.depth_of(x) == g0.depth_of(x)
            &&& self.children_of(x) == if g0.parent_of(id) == Some(x) {
                g0.children_of(x).remove_value(id)
            } else {
                g0.children_of(x)
            }
        } by {
            assert(self.key_of(x.0) == g0.key_of(x.0));
            assert(NodeId(x.0) == x);
        }
    }

    /// Whether `self` is `old` with the subtree of `id` marked stale: when
    /// `id` was clean, every descendant-or-self of `id` becomes dirty and `id`
    /// is recorded as pending; when it was already dirty nothing changes.
    pub open spec fn marked_from(&self, old: &SceneGraph, id: NodeId) -> bool {
        &&& self.marked_nodes(old, id)
        &&& self.pending() == if old.is_dirty(id) {
            old.pending()
        } else {
            old.pending().push(id)
        }
    }

    /// Whether `self` is `old` with the subtree of `id` marked stale when `id`
    /// was clean, leaving the pending list aside.
    pub open spec fn marked_nodes(&self, old: &SceneGraph, id: NodeId) -> bool {
        &&& forall|x: NodeId| #[trigger] self.has(x) == old.has(x)
        &&& self.next_raw() == old.next_raw()
        &&& self.stored() == old.stored()
        &&& self.root_ids() == old.root_ids()
        &&& forall|x: NodeId|
            old.has(x) ==> {
                &&& self.node(x) == old.node(x)
                &&& self.parent_of(x) == old.parent_of(x)
                &&& self.children_of(x) == old.children_of(x)
                &&& self.depth_of(x) == old.depth_of(x)
                &&& #[trigger] self.is_dirty(x) == (old.is_dirty(x) || (!old.is_dirty(id) && old.is_ancestor(id, x)))
            }
        &&& forall|a: NodeId, x: NodeId| #[trigger] self.is_ancestor(a, x) == old.is_ancestor(a, x)
        &&& self.same_editor_state(old)
    }

    /// Marks the cached world transforms of `id` and all its descendants as
    /// stale. Fails with `InvalidId`, changing nothing, when `id` names no node.
    pub fn mark_subtree_dirty(&mut self, id: NodeId) -> (r: Result<(), ValidationError>)
        requires
            old(self).wf(),
        ensures
            final(self).wf(),
            match r {
                Ok(()) => old(self).has(id) && final(self).marked_from(old(self), id),
                Err(e) => !old(self).has(id) && e == ValidationError::InvalidId && *final(self)
                    == *old(self),
            },
    {
        let root_key = match self.key_or_err(id) {
            Ok(k) => k,
            Err(e) => return Err(e),
        };
        let ghost g0 = *self;
        proof {
            assert(g0.record_ok(id.0));
        }
        let dirty = match slots_get(&self.nodes, root_key) {
            Some(record) => record.dirty,
            None => true,
        };
        if dirty {
            proof {
                assert forall|x: NodeId| g0.has(x) implies #[trigger] self.is_dirty(x) == (g0.is_dirty(x) || (
                !g0.is_dirty(id) && g0.is_ancestor(id, x))) by {}
                assert(self.same_editor_state(&g0));
            }
            return Ok(());
        }
        let mut start: Vec<NodeId> = Vec::new();
        start.push(id);
        proof {
            assert(start@ == seq![id]);
            assert(self.walk_start(start@, self.depth@[id.0]));
        }
        let subtree = self.walk(start, Ghost(self.depth@[id.0]));
        proof {
            assert forall|x: NodeId| #[trigger] subtree@.contains(x) <==> g0.is_ancestor(id, x) by {
                if g0.is_ancestor(id, x) {
                    assert(seq![id].contains(id));
                }
            }
            assert forall|j: int| 0 <= j < subtree@.len() implies g0.live((#[trigger] subtree@[j]).0) by {
                assert(subtree@.contains(subtree@[j]));
            }
        }
        self.dirty_roots.push(id);
        proof {
            assert forall|x: u64| #[trigger] self.live(x) implies self.slots().contains_key(self.key_of(x)) && self.rec(x).id == NodeId(x) by {
                assert(g0.live(x));
                assert(g0.record_ok(x));
            }
            assert forall|j: int| 0 <= j < subtree@.len() implies self.live((#[trigger] subtree@[j]).0) by {
                assert(g0.live(subtree@[j].0));
            }
        }
        let ghost g1 = *self;
        self.set_dirty_all(&subtree);
        proof {
            assert forall|x: u64| g0.live(x) implies {
                &&& #[trigger] self.rec(x).id == g0.rec(x).id
                &&& self.rec(x).node == g0.rec(x).node
                &&& self.rec(x).parent == g0.rec(x).parent
                &&& self.rec(x).children == g0.rec(x).children
                &&& self.rec(x).dirty == (g0.rec(x).dirty || subtree@.contains(NodeId(x)))
            } by {
                assert(g1.live(x));
                assert(self.rec(x).id == g1.rec(x).id);
            }
            self.lemma_marked(&g0, id, subtree@);
        }
        Ok(())
    }

    /// Sets the dirty flag of every node in `ids`.
    #[verifier::spinoff_prover]
    fn set_dirty_all(&mut self, ids: &Vec<NodeId>)
        requires
            old(self).index_ok(),
            forall|j: int| 0 <= j < ids@.len() ==> old(self).live((#[trigger] ids@[j]).0),
            forall|x: u64|
                #[trigger] old(self).live(x) ==> old(self).slots().contains_key(old(self).key_of(x))
                    && old(self).rec(x).id == NodeId(x),
        ensures
            final(self).id_to_key == old(self).id_to_key,
            final(self).next_id == old(self).next_id,
            final(self).roots == old(self).roots,
            final(self).dirty_roots == old(self).dirty_roots,
            final(self).editor_metadata == old(self).editor_metadata,
            final(self).selection == old(self).selection,
            final(self).layer_policy == old(self).layer_policy,
            final(self).depth == old(self).depth,
            final(self).slots().dom() == old(self).slots().dom(),
            forall|x: u64|
                old(self).live(x) ==> {
                    &&& #[trigger] final(self).rec(x).id == old(self).rec(x).id
                    &&& final(self).rec(x).node == old(self).rec(x).node
                    &&& final(self).rec(x).parent == old(self).rec(x).parent
                    &&& final(self).rec(x).children == old(self).rec(x).children
                    &&& final(self).rec(x).dirty == (old(self).rec(x).dirty || ids@.contains(NodeId(x)))
                },
    {
        let ghost g0 = *self;
        let mut k: usize = 0;
        while k < ids.len()
            invariant
                g0.index_ok(),
                forall|j: int| 0 <= j < ids@.len() ==> g0.live((#[trigger] ids@[j]).0),
                forall|x: u64|
                    #[trigger] g0.live(x) ==> g0.slots().contains_key(g0.key_of(x)) && g0.rec(x).id == NodeId(x),
                k <= ids@.len(),
                self.id_to_key == g0.id_to_key,
                self.next_id == g0.next_id,
                self.roots == g0.roots,
                self.dirty_roots == g0.dirty_roots,
                self.editor_metadata == g0.editor_metadata,
                self.selection == g0.selection,
                self.layer_policy == g0.layer_policy,
                self.depth == g0.depth,
                self.slots().dom() == g0.slots().dom(),
                forall|x: u64|
                    g0.live(x) ==> {
                        &&& #[trigger] self.rec(x).id == g0.rec(x).id
                        &&& self.rec(x).node == g0.rec(x).node
                        &&& self.rec(x).parent == g0.rec(x).parent
                        &&& self.rec(x).children == g0.rec(x).children
                        &&& self.rec(x).dirty == (g0.rec(x).dirty || ids@.take(k as int).contains(NodeId(x)))
                    },
            decreases ids@.len() - k,
        {
            let x = ids[k];
            let index = x.0 as usize;
            proof {
                assert(g0.live(x.0));
                lemma_push_contains(ids@.take(k as int), x);
                assert(ids@.take(k + 1) =~= ids@.take(k as int).push(x));
            }
            match self.id_to_key[index] {
                Some(key) => {
                    let ghost before = *self;
                    proof {
                        assert(key == g0.key_of(x.0));
                        assert(self.slots().contains_key(key));
                    }
                    let record = slots_get_mut(&mut self.nodes, key);
                    record.dirty = true;
                    proof {
                        assert forall|y: u64| g0.live(y) implies {
                            &&& #[trigger] self.rec(y).id == g0.rec(y).id
                            &&& self.rec(y).node == g0.rec(y).node
                            &&& self.rec(y).parent == g0.rec(y).parent
                            &&& self.rec(y).children == g0.rec(y).children
                            &&& self.rec(y).dirty == (g0.rec(y).dirty || ids@.take(k + 1).contains(NodeId(y)))
                        } by {
                            assert(before.rec(y).id == g0.rec(y).id);
                            assert(self.key_of(y) == g0.key_of(y));
                            if g0.key_of(y) == key {
                                assert(g0.rec(y).id == NodeId(y));
                                assert(g0.rec(x.0).id == NodeId(x.0));
                                assert(NodeId(y) == x);
                                assert(self.rec(y).dirty);
                            } else {
                                assert(NodeId(y) != x);
                                assert(self.rec(y) == before.rec(y));
                            }
                        }
                        assert(self.slots().dom() =~= g0.slots().dom());
                    }
                },
                None => {
                    assert(false);
                },
            }
            let ghost kk = k;
            k = k + 1;
            proof {
                assert forall|y: u64| g0.live(y) implies self.rec(y).dirty == (g0.rec(y).dirty || ids@.take(k as int).contains(NodeId(y))) by {
                    assert(self.rec(y).id == g0.rec(y).id);
                    assert(self.rec(y).dirty == (g0.rec(y).dirty || ids@.take(kk + 1).contains(NodeId(y))));
                }
            }
        }
        proof {
            assert(ids@.take(ids@.len() as int) =~= ids@);
            assert(g0 == *old(self));
            assert forall|x: u64| old(self).live(x) implies {
                &&& #[trigger] self.rec(x).id == g0.rec(x).id
                &&& self.rec(x).node == g0.rec(x).node
                &&& self.rec(x).parent == g0.rec(x).parent
                &&& self.rec(x).children == g0.rec(x).children
                &&& self.rec(x).dirty == (g0.rec(x).dirty || ids@.contains(NodeId(x)))
            } by {
                assert(self.rec(x).id == g0.rec(x).id);
                assert(self.rec(x).parent == g0.rec(x).parent);
            }
        }
    }

    /// Clears the dirty flag of every node in `ids`, all dirty and distinct,
    /// appending them to `updated` in order.
    #[verifier::spinoff_prover]
    fn clear_dirty_all(&mut self, ids: &Vec<NodeId>, updated: &mut Vec<NodeId>)
        requires
            old(self).index_ok(),
            ids@.no_duplicates(),
            forall|j: int| 0 <= j < ids@.len() ==> old(self).live((#[trigger] ids@[j]).0) && old(self).rec(ids@[j].0).dirty,
            forall|x: u64|
                #[trigger] old(self).live(x) ==> old(self).slots().contains_key(old(self).key_of(x))
                    && old(self).rec(x).id == NodeId(x),
        ensures
            final(updated)@ == old(updated)@ + ids@,
            final(self).id_to_key == old(self).id_to_key,
            final(self).next_id == old(self).next_id,
            final(self).roots == old(self).roots,
            final(self).dirty_roots == old(self).dirty_roots,
            final(self).editor_metadata == old(self).editor_metadata,
            final(self).selection == old(self).selection,
            final(self).layer_policy == old(self).layer_policy,
            final(self).depth == old(self).depth,
            final(self).slots().dom() == old(self).slots().dom(),
            forall|x: u64|
                old(self).live(x) ==> {
                    &&& #[trigger] final(self).rec(x).id == old(self).rec(x).id
                    &&& final(self).rec(x).node == old(self).rec(x).node
                    &&& final(self).rec(x).parent == old(self).rec(x).parent
                    &&& final(self).rec(x).children == old(self).rec(x).children
                    &&& final(self).rec(x).dirty == (old(self).rec(x).dirty && !ids@.contains(NodeId(x)))
                },
    {
        let ghost g0 = *self;
        let ghost u0 = updated@;
        let mut k: usize = 0;
        while k < ids.len()
            invariant
                g0.index_ok(),
                ids@.no_duplicates(),
                forall|j: int| 0 <= j < ids@.len() ==> g0.live((#[trigger] ids@[j]).0) && g0.rec(ids@[j].0).dirty,
                forall|x: u64|
                    #[trigger] g0.live(x) ==> g0.slots().contains_key(g0.key_of(x)) && g0.rec(x).id == NodeId(x),
                k <= ids@.len(),
                updated@ == u0 + ids@.take(k as int),
                self.id_to_key == g0.id_to_key,
                self.next_id == g0.next_id,
                self.roots == g0.roots,
                self.dirty_roots == g0.dirty_roots,
                self.editor_metadata == g0.editor_metadata,
                self.selection == g0.selection,
                self.layer_policy == g0.layer_policy,
                self.depth == g0.depth,
                self.slots().dom() == g0.slots().dom(),
                forall|x: u64|
                    g0.live(x) ==> {
                        &&& #[trigger] self.rec(x).id == g0.rec(x).id
                        &&& self.rec(x).node == g0.rec(x).node
                        &&& self.rec(x).parent == g0.rec(x).parent
                        &&& self.rec(x).children == g0.rec(x).children
                        &&& self.rec(x).dirty == (g0.rec(x).dirty && !ids@.take(k as int).contains(NodeId(x)))
                    },
            decreases ids@.len() - k,
        {
            let x = ids[k];
            let index = x.0 as usize;
            proof {
                assert(g0.live(x.0));
                lemma_push_contains(ids@.take(k as int), x);
                assert(ids@.take(k + 1) =~= ids@.take(k as int).push(x));
                assert(!ids@.take(k as int).contains(x)) by {
                    if ids@.take(k as int).contains(x) {
                        let t = choose|t: int| 0 <= t < k && ids@.take(k as int)[t] == x;
                        assert(ids@[t] == ids@[k as int]);
                    }
                }
                assert(NodeId(x.0) == x);
                assert(self.rec(x.0).id == g0.rec(x.0).id);
            }
            match self.id_to_key[index] {
                Some(key) => {
                    let ghost before = *self;
                    proof {
                        assert(key == g0.key_of(x.0));
                        assert(self.slots().contains_key(key));
                    }
                    let record = slots_get_mut(&mut self.nodes, key);
                    record.dirty = false;
                    proof {
                        assert forall|y: u64| g0.live(y) implies {
                            &&& #[trigger] self.rec(y).id == g0.rec(y).id
                            &&& self.rec(y).node == g0.rec(y).node
                            &&& self.rec(y).parent == g0.rec(y).parent
                            &&& self.rec(y).children == g0.rec(y).children
                            &&& self.rec(y).dirty == (g0.rec(y).dirty && !ids@.take(k + 1).contains(NodeId(y)))
                        } by {
                            assert(before.rec(y).id == g0.rec(y).id);
                            assert(self.key_of(y) == g0.key_of(y));
                            if g0.key_of(y) == key {
                                assert(g0.rec(y).id == NodeId(y));
                                assert(g0.rec(x.0).id == NodeId(x.0));
                                assert(NodeId(y) == x);
                                assert(!self.rec(y).dirty);
                            } else {
                                assert(NodeId(y) != x);
                                assert(self.rec(y) == before.rec(y));
                            }
                        }
                        assert(self.slots().dom() =~= g0.slots().dom());
                    }
                },
                None => {
                    assert(false);
                },
            }
            updated.push(x);
            let ghost kk = k;
            k = k + 1;
            proof {
                assert(updated@ =~= u0 + ids@.take(k as int));
                assert forall|y: u64| g0.live(y) implies self.rec(y).dirty == (g0.rec(y).dirty && !ids@.take(k as int).contains(NodeId(y))) by {
                    assert(self.rec(y).id == g0.rec(y).id);
                    assert(self.rec(y).dirty == (g0.rec(y).dirty && !ids@.take(kk + 1).contains(NodeId(y))));
                }
            }
        }
        proof {
            assert(ids@.take(ids@.len() as int) =~= ids@);
            assert(g0 == *old(self));
            assert forall|x: u64| old(self).live(x) implies {
                &&& #[trigger] self.rec(x).id == g0.rec(x).id
                &&& self.rec(x).node == g0.rec(x).node
                &&& self.rec(x).parent == g0.rec(x).parent
                &&& self.rec(x).children == g0.rec(x).children
                &&& self.rec(x).dirty == (g0.rec(x).dirty && !ids@.contains(NodeId(x)))
            } by {
                assert(self.rec(x).id == g0.rec(x).id);
                assert(self.rec(x).parent == g0.rec(x).parent);
            }
        }
    }

    /// Whether `self` is `old` with at most dirty flags and pending updates changed.
    pub open spec fn only_dirt_changed(&self, old: &SceneGraph) -> bool {
        &&& forall|x: NodeId| #[trigger] self.has(x) == old.has(x)
        &&& self.next_raw() == old.next_raw()
        &&& self.stored() == old.stored()
        &&& self.root_ids() == old.root_ids()
        &&& forall|x: NodeId|
            old.has(x) ==> {
                &&& #[trigger] self.node(x) == old.node(x)
                &&& self.parent_of(x) == old.parent_of(x)
                &&& self.children_of(x) == old.children_of(x)
                &&& self.depth_of(x) == old.depth_of(x)
            }
        &&& forall|a: NodeId, x: NodeId| #[trigger] self.is_ancestor(a, x) == old.is_ancestor(a, x)
        &&& self.same_editor_state(old)
    }

    /// Clears the dirty flags of the subtree of `top`, a dirty node whose
    /// parent is clean, appending the subtree in depth-first order to `updated`.
    fn update_subtree(&mut self, top: NodeId, updated: &mut Vec<NodeId>)
        requires
            old(self).wf(),
            old(self).has(top),
            old(self).is_dirty(top),
            old(self).parent_of(top) matches Some(p) ==> !old(self).is_dirty(p),
        ensures
            final(self).wf(),
            final(self).only_dirt_changed(old(self)),
            final(self).pending() == old(self).pending(),
            forall|x: NodeId|
                old(self).has(x) ==> #[trigger] final(self).is_dirty(x) == (old(self).is_dirty(x)
                    && !old(self).is_ancestor(top, x)),
            final(updated)@.len() >= old(updated)@.len(),
            final(updated)@.subrange(0, old(updated)@.len() as int) == old(updated)@,
            ({
                let batch = final(updated)@.subrange(old(updated)@.len() as int, final(updated)@.len() as int);
                &&& batch.no_duplicates()
                &&& forall|x: NodeId| #[trigger] batch.contains(x) <==> old(self).is_ancestor(top, x)
                &&& old(self).parents_first(seq![top], batch)
            }),
    {
        let ghost g0 = *self;
        let ghost u0 = updated@;
        let mut start: Vec<NodeId> = Vec::new();
        start.push(top);
        proof {
            assert(start@ == seq![top]);
            assert(g0.record_ok(top.0));
            assert(self.walk_start(start@, self.depth@[top.0]));
        }
        let batch = self.walk(start, Ghost(self.depth@[top.0]));
        proof {
            assert forall|x: NodeId| #[trigger] batch@.contains(x) <==> g0.is_ancestor(top, x) by {
                if g0.is_ancestor(top, x) {
                    assert(seq![top].contains(top));
                }
            }
            assert forall|j: int| 0 <= j < batch@.len() implies g0.live((#[trigger] batch@[j]).0) && g0.rec(batch@[j].0).dirty by {
                assert(batch@.contains(batch@[j]));
                g0.lemma_dirty_below(top, batch@[j]);
            }
            assert forall|x: u64| #[trigger] g0.live(x) implies g0.slots().contains_key(g0.key_of(x)) && g0.rec(x).id == NodeId(x) by {
                assert(g0.record_ok(x));
            }
        }
        self.clear_dirty_all(&batch, updated);
        proof {
            assert(updated@.subrange(0, u0.len() as int) =~= u0);
            assert(updated@.subrange(u0.len() as int, updated@.len() as int) =~= batch@);
            self.lemma_cleared(&g0, top, batch@);
        }
    }

    /// The state left by `update_subtree` satisfies the graph invariant and
    /// its contract.
    proof fn lemma_cleared(&self, g0: &SceneGraph, top: NodeId, sub: Seq<NodeId>)
        requires
            g0.wf(),
            g0.has(top),
            g0.is_dirty(top),
            g0.parent_of(top) matches Some(p) ==> !g0.is_dirty(p),
            forall|x: NodeId| #[trigger] sub.contains(x) <==> g0.is_ancestor(top, x),
            self.id_to_key == g0.id_to_key,
            self.next_id == g0.next_id,
            self.roots == g0.roots,
            self.dirty_roots == g0.dirty_roots,
            self.editor_metadata == g0.editor_metadata,
            self.selection == g0.selection,
            self.layer_policy == g0.layer_policy,
            self.depth == g0.depth,
            self.slots().dom() == g0.slots().dom(),
            forall|x: u64|
                g0.live(x) ==> {
                    &&& #[trigger] self.rec(x).id == g0.rec(x).id
                    &&& self.rec(x).node == g0.rec(x).node
                    &&& self.rec(x).parent == g0.rec(x).parent
                    &&& self.rec(x).children == g0.rec(x).children
                    &&& self.rec(x).dirty == (g0.rec(x).dirty && !sub.contains(NodeId(x)))
                },
        ensures
            self.wf(),
            self.only_dirt_changed(g0),
            forall|x: NodeId|
                g0.has(x) ==> #[trigger] self.is_dirty(x) == (g0.is_dirty(x) && !g0.is_ancestor(top, x)),
    {
        assert forall|x: u64| #[trigger] self.live(x) == g0.live(x) by {}
        assert forall|x: u64| #[trigger] self.parent_raw(x) == g0.parent_raw(x) by {
            if g0.live(x) {
                assert(self.rec(x).id == g0.rec(x).id);
            }
        }
        assert forall|x: u64, k: nat| #[trigger] self.anc(x, k) == g0.anc(x, k) by {
            self.lemma_anc_same(g0, x, k);
        }
        assert forall|a: NodeId, x: NodeId| #[trigger] self.is_ancestor(a, x) == g0.is_ancestor(a, x) by {
            if g0.live(x.0) {
                assert(self.anc(x.0, (self.depth@[x.0] - self.depth@[a.0]) as nat) == g0.anc(
                    x.0,
                    (self.depth@[x.0] - self.depth@[a.0]) as nat,
                ));
            }
        }
        assert forall|y: u64| #[trigger] self.live(y) implies self.record_ok(y) by {
            assert(g0.record_ok(y));
            assert(self.rec(y).id == g0.rec(y).id);
            let r = self.rec(y);
            if let Some(q) = r.parent {
                assert(self.rec(q.0).id == g0.rec(q.0).id);
            }
            assert forall|j: int| 0 <= j < r.children@.len() implies {
                &&& self.live((#[trigger] r.children@[j]).0)
                &&& self.rec(r.children@[j].0).parent == Some(NodeId(y))
                &&& (r.dirty ==> self.rec(r.children@[j].0).dirty)
            } by {
                let c = r.children@[j];
                assert(g0.live(c.0));
                assert(self.rec(c.0).id == g0.rec(c.0).id);
                if r.dirty {
                    assert(NodeId(c.0) == c);
                    if sub.contains(c) {
                        assert(g0.is_ancestor(top, c));
                        if c != top {
                            g0.lemma_ancestor_up(top, c);
                            assert(sub.contains(NodeId(y)));
                        } else {
                            assert(g0.parent_of(top) == Some(NodeId(y)));
                        }
                    }
                }
            }
        }
        assert forall|j: int| 0 <= j < self.roots@.len() implies {
            &&& self.live((#[trigger] self.roots@[j]).0)
            &&& self.rec(self.roots@[j].0).parent is None
        } by {
            assert(g0.live(self.roots@[j].0));
            assert(self.rec(self.roots@[j].0).id == g0.rec(self.roots@[j].0).id);
        }
        assert forall|i: int|
            0 <= i < self.editor_metadata@.len() && (#[trigger] self.editor_metadata@[i]) is Some implies self.live(i as u64) by {
            assert(g0.live(i as u64));
        }
        assert forall|j: int| 0 <= j < self.dirty_roots@.len() implies self.live((#[trigger] self.dirty_roots@[j]).0) by {
            assert(g0.live(self.dirty_roots@[j].0));
        }
        assert forall|j: int| 0 <= j < self.selection.selected@.len() implies self.live((#[trigger] self.selection.selected@[j]).0) by {
            assert(g0.live(self.selection.selected@[j].0));
        }
        assert forall|x: NodeId|
            #[trigger] self.has(x) && self.is_dirty(x) && !self.dirty_parent(x) implies self.pending().contains(x) by {
            assert(g0.record_ok(x.0));
            assert(NodeId(x.0) == x);
            assert(self.rec(x.0).id == g0.rec(x.0).id);
            assert(g0.is_dirty(x) && !sub.contains(x));
            if let Some(p) = g0.parent_of(x) {
                assert(g0.live(p.0));
                assert(NodeId(p.0) == p);
                assert(self.rec(p.0).id == g0.rec(p.0).id);
                if g0.is_dirty(p) && sub.contains(p) {
                    g0.lemma_ancestor_down(top, x);
                }
            }
            assert(g0.has(x) && g0.is_dirty(x) && !g0.dirty_parent(x));
        }
        assert(self.wf());
        assert forall|x: NodeId| g0.has(x) implies {
            &&& #[trigger] self.node(x) == g0.node(x)
            &&& self.parent_of(x) == g0.parent_of(x)
            &&& self.children_of(x) == g0.children_of(x)
            &&& self.depth_of(x) == g0.depth_of(x)
        } by {
            assert(self.rec(x.0).id == g0.rec(x.0).id);
        }
        assert forall|x: NodeId| g0.has(x) implies #[trigger] self.is_dirty(x) == (g0.is_dirty(x) && !g0.is_ancestor(top, x)) by {
            assert(self.rec(x.0).id == g0.rec(x.0).id);
            assert(NodeId(x.0) == x);
        }
        assert forall|x: NodeId| #[trigger] self.has(x) == g0.has(x) by {}
        assert(self.same_editor_state(g0));
    }

    /// Whether every node of `s` whose parent is also in `s` comes after it.
    pub open spec fn parents_before(&self, s: Seq<NodeId>) -> bool {
        forall|j: int, k: int|
            0 <= j < s.len() && 0 <= k < s.len() && self.parent_of(#[trigger] s[j]) == Some(#[trigger] s[k]) ==> k < j
    }

    /// Whether `self` is `old` after refreshing the stale world transforms:
    /// the pending list is empty and exactly the nodes that share a dirty
    /// ancestor with a pending node are clean now.
    pub open spec fn updated_from(&self, old: &SceneGraph) -> bool {
        &&& self.only_dirt_changed(old)
        &&& self.pending().len() == 0
        &&& forall|x: NodeId|
            old.has(x) ==> #[trigger] self.is_dirty(x) == (old.is_dirty(x) && !old.refreshed_by(old.pending(), x))
    }

    /// Refreshes the stale cached world transforms: every pending node that is
    /// still dirty has its highest dirty ancestor's subtree updated, in
    /// ascending id order, after which no node is stale. Returns the updated
    /// nodes in the order in which their world transforms are to be
    /// recomputed, each after its parent.
    pub fn update_world_transforms(&mut self) -> (updated: Vec<NodeId>)
        requires
            old(self).wf(),
        ensures
            final(self).wf(),
            final(self).updated_from(old(self)),
            forall|x: NodeId| #[trigger] final(self).has(x) ==> !final(self).is_dirty(x),
            updated@.no_duplicates(),
            forall|x: NodeId|
                #[trigger] updated@.contains(x) <==> (old(self).has(x) && old(self).is_dirty(x)
                    && old(self).refreshed_by(old(self).pending(), x)),
            old(self).parents_before(updated@),
    {
        let ghost g0 = *self;
        let pending = copy_ids(&self.dirty_roots);
        let order = sorted_unique(pending);
        let mut updated: Vec<NodeId> = Vec::new();
        proof {
            assert forall|x: NodeId| #[trigger] self.has(x) == g0.has(x) by {}
            assert forall|x: NodeId| g0.has(x) implies #[trigger] self.node(x) == g0.node(x) && self.parent_of(x)
                == g0.parent_of(x) && self.children_of(x) == g0.children_of(x) && self.depth_of(x) == g0.depth_of(x) by {}
            assert forall|x: u64| #[trigger] self.parent_raw(x) == g0.parent_raw(x) by {}
            assert forall|x: u64, k: nat| #[trigger] self.anc(x, k) == g0.anc(x, k) by {
                self.lemma_anc_same(&g0, x, k);
            }
            assert forall|a: NodeId, x: NodeId| #[trigger] self.is_ancestor(a, x) == g0.is_ancestor(a, x) by {
                assert(self.anc(x.0, (self.depth@[x.0] - self.depth@[a.0]) as nat) == g0.anc(
                    x.0,
                    (self.depth@[x.0] - self.depth@[a.0]) as nat,
                ));
            }
            assert forall|x: u64| #[trigger] self.live(x) implies self.record_ok(x) by {
                assert(g0.live(x));
                assert(g0.record_ok(x));
            }
            assert(self.wf());
            assert(self.same_editor_state(&g0));
            assert forall|x: NodeId| g0.has(x) implies #[trigger] self.is_dirty(x) == (g0.is_dirty(x)
                && !g0.refreshed_by(order@.take(0), x)) by {
                assert(order@.take(0) =~= Seq::<NodeId>::empty());
            }
            assert(self.refreshed_state(&g0, order@.take(0)));
        }
        let mut i: usize = 0;
        while i < order.len()
            invariant
                g0.wf(),
                self.wf(),
                self.only_dirt_changed(&g0),
                self.pending() == g0.pending(),
                i <= order@.len(),
                self.refreshed_state(&g0, order@.take(i as int)),
                updated@.no_duplicates(),
                forall|x: NodeId|
                    #[trigger] updated@.contains(x) <==> (g0.has(x) && g0.is_dirty(x) && !self.is_dirty(x)),
                g0.parents_before(updated@),
            decreases order@.len() - i,
        {
            let id = order[i];
            let ghost s = *self;
            let ghost u = updated@;
            proof {
                assert(order@.take(i + 1) =~= order@.take(i as int).push(id));
            }
            match self.highest_dirty_ancestor(id) {
                Some(top) => {
                    self.update_subtree(top, &mut updated);
                    proof {
                        self.lemma_refresh_top(&g0, &s, order@.take(i as int), id, top);
                        self.lemma_update_batch(&g0, &s, u, updated@, top);
                    }
                },
                None => {
                    proof {
                        s.lemma_refresh_none(&g0, order@.take(i as int), id);
                    }
                },
            }
            i = i + 1;
        }
        proof {
            assert(order@.take(order@.len() as int) =~= order@);
            assert forall|r: NodeId| #[trigger] order@.contains(r) == g0.dirty_roots@.contains(r) by {
                assert(order@.to_set().contains(r) == g0.dirty_roots@.to_set().contains(r));
            }
            assert forall|x: NodeId| #[trigger] g0.refreshed_by(order@, x) == g0.refreshed_by(g0.pending(), x) by {
                if g0.refreshed_by(order@, x) {
                    let (r1, a) = choose|r1: NodeId, a: NodeId|
                        order@.contains(r1) && g0.is_dirty(a) && g0.is_ancestor(a, x) && g0.is_ancestor(a, r1);
                    assert(g0.pending().contains(r1));
                }
                if g0.refreshed_by(g0.pending(), x) {
                    let (r1, a) = choose|r1: NodeId, a: NodeId|
                        g0.pending().contains(r1) && g0.is_dirty(a) && g0.is_ancestor(a, x) && g0.is_ancestor(a, r1);
                    assert(order@.contains(r1));
                }
            }
            assert forall|x: NodeId| #[trigger] updated@.contains(x) <==> (g0.has(x) && g0.is_dirty(x)
                && g0.refreshed_by(g0.pending(), x)) by {
                if updated@.contains(x) {
                    assert(!self.is_dirty(x));
                }
            }
            assert forall|x: NodeId| #[trigger] self.has(x) implies !self.is_dirty(x) by {
                assert(g0.has(x));
                if g0.is_dirty(x) {
                    g0.lemma_dirty_covered(x);
                    let t = choose|t: NodeId| #[trigger] g0.pending().contains(t) && g0.is_dirty(t) && g0.is_ancestor(t, x);
                    g0.lemma_ancestor_self(t);
                    assert(g0.refreshed_by(g0.pending(), x));
                }
            }
        }
        let ghost s1 = *self;
        self.dirty_roots = Vec::new();
        proof {
            assert(s1.wf());
            assert(self.selection == s1.selection);
            assert forall|x: u64| #[trigger] self.live(x) implies self.record_ok(x) by {
                assert(s1.live(x));
                assert(s1.record_ok(x));
            }
            assert(self.core_ok());
            assert(self.dirty_roots@ =~= Seq::<NodeId>::empty());
            assert(self.refs_ok());
            assert forall|y: u64| #[trigger] self.parent_raw(y) == s1.parent_raw(y) by {}
            assert forall|x: u64, k: nat| #[trigger] self.anc(x, k) == s1.anc(x, k) by {
                self.lemma_anc_same(&s1, x, k);
            }
            assert forall|x: NodeId| #[trigger] self.has(x) implies !self.is_dirty(x) by {
                assert(s1.has(x));
            }
            assert(self.wf());
            assert forall|x: NodeId| g0.has(x) implies #[trigger] self.node(x) == g0.node(x) && self.parent_of(x)
                == g0.parent_of(x) && self.children_of(x) == g0.children_of(x) && self.depth_of(x) == g0.depth_of(x) by {
                assert(s1.node(x) == g0.node(x));
            }
            assert forall|x: NodeId| g0.has(x) implies #[trigger] self.is_dirty(x) == (g0.is_dirty(x)
                && !g0.refreshed_by(g0.pending(), x)) by {
                assert(s1.is_dirty(x) == (g0.is_dirty(x) && !g0.refreshed_by(g0.pending(), x)));
            }
            assert forall|x: NodeId| #[trigger] self.has(x) == g0.has(x) by {
                assert(s1.has(x) == g0.has(x));
            }
            assert(self.stored() == g0.stored());
            assert(self.root_ids() == g0.root_ids());
            assert(self.next_raw() == g0.next_raw());
            assert forall|x: NodeId| #[trigger] self.metadata_of(x) == g0.metadata_of(x) by {
                assert(s1.metadata_of(x) == g0.metadata_of(x));
            }
            assert(self.same_editor_state(&g0));
            assert forall|a: NodeId, x: NodeId| #[trigger] self.is_ancestor(a, x) == g0.is_ancestor(a, x) by {
                assert(s1.is_ancestor(a, x) == g0.is_ancestor(a, x));
                assert(self.anc(x.0, (self.depth@[x.0] - self.depth@[a.0]) as nat) == s1.anc(
                    x.0,
                    (self.depth@[x.0] - self.depth@[a.0]) as nat,
                ));
            }
        }
        updated
    }

    /// One batch appended by `update_subtree` keeps the list of updated
    /// nodes free of repeats, exact, and ordered parents first.
    proof fn lemma_update_batch(&self, g0: &SceneGraph, s: &SceneGraph, u: Seq<NodeId>, un: Seq<NodeId>, top: NodeId)
        requires
            g0.wf(),
            s.wf(),
            s.only_dirt_changed(g0),
            forall|x: NodeId| g0.has(x) && s.is_dirty(x) ==> #[trigger] g0.is_dirty(x),
            u.no_duplicates(),
            u.len() <= un.len(),
            forall|x: NodeId| #[trigger] u.contains(x) <==> (g0.has(x) && g0.is_dirty(x) && !s.is_dirty(x)),
            g0.parents_before(u),
            s.has(top),
            s.is_dirty(top),
            s.parent_of(top) matches Some(p) ==> !s.is_dirty(p),
            self.only_dirt_changed(s),
            forall|x: NodeId| s.has(x) ==> #[trigger] self.is_dirty(x) == (s.is_dirty(x) && !s.is_ancestor(top, x)),
            un.subrange(0, u.len() as int) == u,
            ({
                let batch = un.subrange(u.len() as int, un.len() as int);
                &&& batch.no_duplicates()
                &&& forall|x: NodeId| #[trigger] batch.contains(x) <==> s.is_ancestor(top, x)
                &&& s.parents_first(seq![top], batch)
            }),
        ensures
            un.no_duplicates(),
            forall|x: NodeId| #[trigger] un.contains(x) <==> (g0.has(x) && g0.is_dirty(x) && !self.is_dirty(x)),
            g0.parents_before(un),
    {
        let batch = un.subrange(u.len() as int, un.len() as int);
        assert(un =~= u + batch);
        lemma_concat_contains(u, batch);
        // Everything in the batch was dirty; everything in `u` was clean.
        assert forall|x: NodeId| batch.contains(x) implies s.has(x) && s.is_dirty(x) by {
            s.lemma_dirty_below(top, x);
        }
        lemma_concat_no_dup(u, batch);
        assert forall|x: NodeId| #[trigger] un.contains(x) <==> (g0.has(x) && g0.is_dirty(x) && !self.is_dirty(x)) by {
            if g0.has(x) {
                assert(s.has(x));
                assert(self.is_dirty(x) == (s.is_dirty(x) && !s.is_ancestor(top, x)));
            }
        }
        assert forall|j: int, k: int|
            0 <= j < un.len() && 0 <= k < un.len() && g0.parent_of(#[trigger] un[j]) == Some(#[trigger] un[k]) implies k < j by {
            let x = un[j];
            let p = un[k];
            assert(un.contains(x));
            assert(un.contains(p));
            assert(g0.has(x));
            assert(s.has(x));
            assert(s.node(x) == g0.node(x));
            assert(s.parent_of(x) == Some(p));
            if j < u.len() && k >= u.len() {
                assert(u[j] == x);
                assert(batch[k - u.len()] == p);
                assert(batch.contains(p));
                s.lemma_ancestor_self(p);
                s.lemma_ancestor_down(p, x);
                s.lemma_dirty_below(p, x);
                assert(u.contains(x));
            } else if j >= u.len() && k >= u.len() {
                let jb = j - u.len();
                let kb = k - u.len();
                assert(batch[jb] == x);
                assert(batch[kb] == p);
                if seq![top].contains(x) {
                    assert(x == top);
                    assert(batch.contains(p));
                    assert(s.is_dirty(p));
                } else {
                    let k2 = choose|k2: int| 0 <= k2 < jb && batch[k2] == s.parent_of(batch[jb])->0;
                    assert(batch[k2] == batch[kb]);
                }
            } else if j < u.len() && k < u.len() {
                assert(u[j] == x);
                assert(u[k] == p);
            }
        }
    }

    /// Whether some node of `roots` shares a dirty ancestor with `x`, so that
    /// updating from that root refreshes `x`.
    pub open spec fn refreshed_by(&self, roots: Seq<NodeId>, x: NodeId) -> bool {
        exists|r: NodeId, a: NodeId|
            #![trigger roots.contains(r), self.is_ancestor(a, x)]
            roots.contains(r) && self.is_dirty(a) && self.is_ancestor(a, x) && self.is_ancestor(a, r)
    }

    /// The dirty flags of `self` are those of `g0` minus what `prefix` refreshed.
    spec fn refreshed_state(&self, g0: &SceneGraph, prefix: Seq<NodeId>) -> bool {
        forall|x: NodeId|
            g0.has(x) ==> #[trigger] self.is_dirty(x) == (g0.is_dirty(x) && !g0.refreshed_by(prefix, x))
    }

    /// A root that is gone or already clean refreshes nothing new.
    proof fn lemma_refresh_none(&self, g0: &SceneGraph, prefix: Seq<NodeId>, r: NodeId)
        requires
            g0.wf(),
            self.wf(),
            self.only_dirt_changed(g0),
            self.refreshed_state(g0, prefix),
            !self.has(r) || !self.is_dirty(r),
        ensures
            self.refreshed_state(g0, prefix.push(r)),
    {
        lemma_push_contains(prefix, r);
        assert forall|x: NodeId| g0.has(x) implies #[trigger] self.is_dirty(x) == (g0.is_dirty(x)
            && !g0.refreshed_by(prefix.push(r), x)) by {
            if g0.refreshed_by(prefix.push(r), x) && !g0.refreshed_by(prefix, x) {
                let (r1, a) = choose|r1: NodeId, a: NodeId|
                    prefix.push(r).contains(r1) && g0.is_dirty(a) && g0.is_ancestor(a, x) && g0.is_ancestor(a, r1);
                if r1 != r {
                    assert(prefix.contains(r1));
                    assert(g0.refreshed_by(prefix, x));
                }
                assert(r1 == r);
                assert(g0.has(r));
                assert(self.has(r));
                g0.lemma_dirty_below(a, r);
                assert(g0.refreshed_by(prefix, r));
                let (r2, b) = choose|r2: NodeId, b: NodeId|
                    prefix.contains(r2) && g0.is_dirty(b) && g0.is_ancestor(b, r) && g0.is_ancestor(b, r2);
                g0.lemma_ancestors_ordered(a, b, r);
                if g0.is_ancestor(b, a) {
                    g0.lemma_ancestor_trans(b, a, x);
                } else {
                    g0.lemma_ancestor_trans(a, b, r2);
                }
                assert(g0.refreshed_by(prefix, x));
            }
            if g0.refreshed_by(prefix, x) {
                let (r1, a) = choose|r1: NodeId, a: NodeId|
                    prefix.contains(r1) && g0.is_dirty(a) && g0.is_ancestor(a, x) && g0.is_ancestor(a, r1);
                assert(prefix.push(r).contains(r1));
                assert(g0.refreshed_by(prefix.push(r), x));
            }
        }
    }

    /// Updating the subtree of the highest dirty ancestor `t` of `r` refreshes
    /// exactly what `r` refreshes.
    proof fn lemma_refresh_top(&self, g0: &SceneGraph, s: &SceneGraph, prefix: Seq<NodeId>, r: NodeId, t: NodeId)
        requires
            g0.wf(),
            s.wf(),
            s.only_dirt_changed(g0),
            s.refreshed_state(g0, prefix),
            s.has(r),
            s.is_dirty(r),
            s.is_ancestor(t, r),
            s.is_dirty(t),
            s.parent_of(t) matches Some(p) ==> !s.is_dirty(p),
            self.only_dirt_changed(s),
            forall|x: NodeId| s.has(x) ==> #[trigger] self.is_dirty(x) == (s.is_dirty(x) && !s.is_ancestor(t, x)),
        ensures
            self.refreshed_state(g0, prefix.push(r)),
    {
        lemma_push_contains(prefix, r);
        assert(g0.is_ancestor(t, r));
        assert(g0.has(t));
        assert(g0.is_dirty(t));
        assert forall|x: NodeId| g0.has(x) implies #[trigger] self.is_dirty(x) == (g0.is_dirty(x)
            && !g0.refreshed_by(prefix.push(r), x)) by {
            assert(s.has(x));
            assert(s.is_ancestor(t, x) == g0.is_ancestor(t, x));
            if g0.refreshed_by(prefix, x) {
                let (r1, a) = choose|r1: NodeId, a: NodeId|
                    prefix.contains(r1) && g0.is_dirty(a) && g0.is_ancestor(a, x) && g0.is_ancestor(a, r1);
                assert(prefix.push(r).contains(r1));
                assert(g0.refreshed_by(prefix.push(r), x));
            } else if g0.is_ancestor(t, x) {
                assert(prefix.push(r).contains(r));
                assert(g0.refreshed_by(prefix.push(r), x));
            } else if g0.refreshed_by(prefix.push(r), x) {
                let (r1, a) = choose|r1: NodeId, a: NodeId|
                    prefix.push(r).contains(r1) && g0.is_dirty(a) && g0.is_ancestor(a, x) && g0.is_ancestor(a, r1);
                if r1 != r {
                    assert(prefix.contains(r1));
                    assert(g0.refreshed_by(prefix, x));
                }
                assert(r1 == r);
                g0.lemma_ancestors_ordered(a, t, r);
                if g0.is_ancestor(t, a) {
                    g0.lemma_ancestor_trans(t, a, x);
                } else {
                    // `a` lies strictly above `t`, so the parent of `t` is below `a`.
                    g0.lemma_ancestor_up(a, t);
                    let p = g0.parent_of(t)->0;
                    assert(s.node(t) == g0.node(t));
                    assert(s.parent_of(t) == g0.parent_of(t));
                    g0.lemma_dirty_below(a, p);
                    assert(g0.has(p));
                    assert(!s.is_dirty(p));
                    assert(g0.refreshed_by(prefix, p));
                    let (r2, b) = choose|r2: NodeId, b: NodeId|
                        prefix.contains(r2) && g0.is_dirty(b) && g0.is_ancestor(b, p) && g0.is_ancestor(b, r2);
                    g0.lemma_ancestor_self(p);
                    g0.lemma_ancestor_down(p, t);
                    g0.lemma_ancestor_trans(b, p, t);
                    g0.lemma_ancestor_trans(b, t, r);
                    assert(g0.refreshed_by(prefix, r));
                    assert(g0.has(r));
                    assert(!s.is_dirty(r));
                }
            }
        }
    }

    /// The state left by `mark_subtree_dirty` satisfies the graph invariant
    /// and its contract.
    proof fn lemma_marked(&self, g0: &SceneGraph, id: NodeId, sub: Seq<NodeId>)
        requires
            g0.wf(),
            g0.has(id),
            !g0.is_dirty(id),
            forall|x: NodeId| #[trigger] sub.contains(x) <==> g0.is_ancestor(id, x),
            self.id_to_key == g0.id_to_key,
            self.next_id == g0.next_id,
            self.roots == g0.roots,
            self.dirty_roots@ == g0.dirty_roots@.push(id),
            self.editor_metadata == g0.editor_metadata,
            self.selection == g0.selection,
            self.layer_policy == g0.layer_policy,
            self.depth == g0.depth,
            self.slots().dom() == g0.slots().dom(),
            forall|x: u64|
                g0.live(x) ==> {
                    &&& #[trigger] self.rec(x).id == g0.rec(x).id
                    &&& self.rec(x).node == g0.rec(x).node
                    &&& self.rec(x).parent == g0.rec(x).parent
                    &&& self.rec(x).children == g0.rec(x).children
                    &&& self.rec(x).dirty == (g0.rec(x).dirty || sub.contains(NodeId(x)))
                },
        ensures
            self.wf(),
            self.marked_from(g0, id),
    {
        assert forall|x: u64| #[trigger] self.live(x) == g0.live(x) by {}
        assert forall|x: u64| #[trigger] self.parent_raw(x) == g0.parent_raw(x) by {
            if g0.live(x) {
                assert(self.rec(x).id == g0.rec(x).id);
            }
        }
        assert forall|x: u64, k: nat| #[trigger] self.anc(x, k) == g0.anc(x, k) by {
            self.lemma_anc_same(g0, x, k);
        }
        assert forall|a: NodeId, x: NodeId| #[trigger] self.is_ancestor(a, x) == g0.is_ancestor(a, x) by {
            if g0.live(x.0) {
                assert(self.anc(x.0, (self.depth@[x.0] - self.depth@[a.0]) as nat) == g0.anc(
                    x.0,
                    (self.depth@[x.0] - self.depth@[a.0]) as nat,
                ));
            }
        }
        assert forall|y: u64| #[trigger] self.live(y) implies self.record_ok(y) by {
            assert(g0.record_ok(y));
            assert(self.rec(y).id == g0.rec(y).id);
            let r = self.rec(y);
            if let Some(q) = r.parent {
                assert(self.rec(q.0).id == g0.rec(q.0).id);
            }
            assert forall|j: int| 0 <= j < r.children@.len() implies {
                &&& self.live((#[trigger] r.children@[j]).0)
                &&& self.rec(r.children@[j].0).parent == Some(NodeId(y))
                &&& (r.dirty ==> self.rec(r.children@[j].0).dirty)
            } by {
                let c = r.children@[j];
                assert(g0.live(c.0));
                assert(self.rec(c.0).id == g0.rec(c.0).id);
                if r.dirty && !g0.rec(y).dirty {
                    assert(sub.contains(NodeId(y)));
                    assert(g0.is_ancestor(id, NodeId(y)));
                    assert(NodeId(c.0) == c);
                    g0.lemma_ancestor_down(id, c);
                    assert(sub.contains(NodeId(c.0)));
                }
            }
        }
        assert forall|j: int| 0 <= j < self.roots@.len() implies {
            &&& self.live((#[trigger] self.roots@[j]).0)
            &&& self.rec(self.roots@[j].0).parent is None
        } by {
            assert(g0.live(self.roots@[j].0));
            assert(self.rec(self.roots@[j].0).id == g0.rec(self.roots@[j].0).id);
        }
        assert forall|i: int|
            0 <= i < self.editor_metadata@.len() && (#[trigger] self.editor_metadata@[i]) is Some implies self.live(i as u64) by {
            assert(g0.live(i as u64));
        }
        assert forall|j: int| 0 <= j < self.dirty_roots@.len() implies self.live((#[trigger] self.dirty_roots@[j]).0) by {
            if j < g0.dirty_roots@.len() {
                assert(self.dirty_roots@[j] == g0.dirty_roots@[j]);
            }
        }
        assert forall|j: int| 0 <= j < self.selection.selected@.len() implies self.live((#[trigger] self.selection.selected@[j]).0) by {
            assert(g0.live(self.selection.selected@[j].0));
        }
        assert forall|x: NodeId|
            #[trigger] self.has(x) && self.is_dirty(x) && !self.dirty_parent(x) implies self.pending().contains(x) by {
            assert(g0.record_ok(x.0));
            assert(NodeId(x.0) == x);
            assert(self.rec(x.0).id == g0.rec(x.0).id);
            if x == id {
                assert(self.dirty_roots@[self.dirty_roots@.len() - 1] == id);
            } else if sub.contains(x) {
                g0.lemma_ancestor_up(id, x);
                let p = g0.parent_of(x)->0;
                assert(sub.contains(p));
                assert(NodeId(p.0) == p);
                assert(self.rec(p.0).id == g0.rec(p.0).id);
                assert(self.is_dirty(p));
            } else {
                assert(g0.is_dirty(x));
                if let Some(p) = g0.parent_of(x) {
                    assert(g0.live(p.0));
                    assert(NodeId(p.0) == p);
                    assert(self.rec(p.0).id == g0.rec(p.0).id);
                    if sub.contains(p) {
                        g0.lemma_ancestor_down(id, x);
                    }
                }
                assert(g0.has(x) && g0.is_dirty(x) && !g0.dirty_parent(x));
                assert(g0.pending().contains(x));
                let k = choose|k: int| 0 <= k < g0.dirty_roots@.len() && g0.dirty_roots@[k] == x;
                assert(self.dirty_roots@[k] == x);
            }
        }
        assert(self.wf());
        assert forall|x: NodeId| g0.has(x) implies {
            &&& self.node(x) == g0.node(x)
            &&& self.parent_of(x) == g0.parent_of(x)
            &&& self.children_of(x) == g0.children_of(x)
            &&& self.depth_of(x) == g0.depth_of(x)
            &&& #[trigger] self.is_dirty(x) == (g0.is_dirty(x) || (!g0.is_dirty(id) && g0.is_ancestor(id, x)))
        } by {
            assert(self.rec(x.0).id == g0.rec(x.0).id);
            assert(NodeId(x.0) == x);
        }
        assert forall|x: NodeId| #[trigger] self.has(x) == g0.has(x) by {}
        assert(self.same_editor_state(g0));
    }

    /// Two graphs whose records agree on ids and parents agree on ancestors.
    proof fn lemma_anc_same(&self, other: &SceneGraph, x: u64, k: nat)
        requires
            forall|y: u64| #[trigger] self.parent_raw(y) == other.parent_raw(y),
        ensures
            self.anc(x, k) == other.anc(x, k),
        decreases k,
    {
        if k > 0 {
            self.lemma_anc_same(other, self.parent_raw(x), (k - 1) as nat);
        }
    }

    /// Returns whether `ancestor` is `node` or one of its ancestors.
    fn is_descendant(&self, node: NodeId, ancestor: NodeId) -> (b: bool)
        requires
            self.wf(),
            self.has(node),
            self.has(ancestor),
        ensures
            b == self.is_ancestor(ancestor, node),
    {
        let mut current = node;
        loop
            invariant
                self.wf(),
                self.has(current),
                self.has(ancestor),
                self.is_ancestor(ancestor, node) == self.is_ancestor(ancestor, current),
            decreases self.depth@[current.0],
        {
            if current == ancestor {
                proof {
                    self.lemma_ancestor_self(ancestor);
                }
                return true;
            }
            proof {
                assert(self.record_ok(current.0));
            }
            match self.parent(current) {
                Some(p) => {
                    proof {
                        if self.is_ancestor(ancestor, current) {
                            self.lemma_ancestor_up(ancestor, current);
                        }
                        if self.is_ancestor(ancestor, p) {
                            self.lemma_ancestor_down(ancestor, current);
                        }
                    }
                    current = p;
                },
                None => {
                    proof {
                        if self.is_ancestor(ancestor, current) {
                            self.lemma_ancestor_up(ancestor, current);
                        }
                    }
                    return false;
                },
            }
        }
    }

    /// The depths after moving the subtree of `node` so that `node` sits at depth `nd`.
    spec fn shifted_depth(&self, node: NodeId, nd: nat) -> Map<u64, nat> {
        Map::new(
            |i: u64| self.depth@.contains_key(i),
            |i: u64|
                if self.live(i) && self.is_ancestor(node, NodeId(i)) {
                    (self.depth@[i] - self.depth@[node.0] + nd) as nat
                } else {
                    self.depth@[i]
                },
        )
    }

    /// Whether the links of `self` are those of `old` with `node` moved under
    /// `new_parent` (or to the roots): the old parent's child list (or the
    /// root list) loses `node`, the new one gains it at the end, and the
    /// other links, the node data and the editor state stay.
    pub open spec fn relinked_links(&self, old: &SceneGraph, node: NodeId, new_parent: Option<NodeId>) -> bool {
        &&& forall|x: NodeId| #[trigger] self.has(x) == old.has(x)
        &&& self.next_raw() == old.next_raw()
        &&& self.stored() == old.stored()
        &&& self.same_editor_state(old)
        &&& self.parent_of(node) == new_parent
        &&& forall|x: NodeId|
            old.has(x) ==> {
                &&& #[trigger] self.node(x) == old.node(x)
                &&& (x != node ==> self.parent_of(x) == old.parent_of(x))
                &&& self.children_of(x) == if old.parent_of(node) == Some(x) {
                    old.children_of(x).remove_value(node)
                } else if new_parent == Some(x) {
                    old.children_of(x).push(node)
                } else {
                    old.children_of(x)
                }
            }
        &&& self.root_ids() == if old.parent_of(node) is None {
            old.root_ids().remove_value(node)
        } else if new_parent is None {
            old.root_ids().push(node)
        } else {
            old.root_ids()
        }
    }

    /// Whether `self` is `old` with `node` moved under `new_parent`, dirty
    /// flags and pending updates unchanged.
    pub open spec fn relinked_from(&self, old: &SceneGraph, node: NodeId, new_parent: Option<NodeId>) -> bool {
        &&& self.relinked_links(old, node, new_parent)
        &&& self.pending() == old.pending()
        &&& forall|x: NodeId| old.has(x) ==> #[trigger] self.is_dirty(x) == old.is_dirty(x)
    }

    /// What `reparent` answers for `node` and `new_parent`.
    pub open spec fn reparent_result(&self, node: NodeId, new_parent: Option<NodeId>) -> Result<(), ValidationError> {
        if !self.has(node) {
            Err(ValidationError::InvalidId)
        } else {
            match new_parent {
                Some(p) => if !self.has(p) {
                    Err(ValidationError::InvalidId)
                } else if self.is_ancestor(node, p) {
                    Err(ValidationError::InvalidState)
                } else {
                    Ok(())
                },
                None => Ok(()),
            }
        }
    }

    /// Moves `node` under `new_parent`, or makes it a root for `None`. The
    /// node keeps its subtree, which becomes stale, and the node is queued for
    /// the next update even when it was stale already. Fails with `InvalidId` when
    /// either id names no node and with `InvalidState` when `new_parent` is
    /// `node` itself or one of its descendants; a failed or no-op call changes
    /// nothing.
    pub fn reparent(&mut self, node: NodeId, new_parent: Option<NodeId>) -> (r: Result<(), ValidationError>)
        requires
            old(self).wf(),
        ensures
            final(self).wf(),
            r == old(self).reparent_result(node, new_parent),
            r is Err || old(self).parent_of(node) == new_parent ==> *final(self) == *old(self),
            r is Ok && old(self).parent_of(node) != new_parent ==> {
                &&& final(self).relinked_links(old(self), node, new_parent)
                &&& forall|x: NodeId|
                    old(self).has(x) ==> #[trigger] final(self).is_dirty(x) == (old(self).is_dirty(x) || (
                    !old(self).is_dirty(node) && old(self).is_ancestor(node, x)))
                &&& final(self).pending() == old(self).pending().push(node)
            },
    {
        if self.key(node).is_none() {
            return Err(ValidationError::InvalidId);
        }
        if let Some(parent) = new_parent {
            if self.key(parent).is_none() {
                return Err(ValidationError::InvalidId);
            }
            if self.is_descendant(parent, node) {
                return Err(ValidationError::InvalidState);
            }
        }
        let old_parent = self.parent(node);
        if old_parent == new_parent {
            return Ok(());
        }
        let ghost g0 = *self;
        let was_dirty = match self.get_record(node) {
            Some(record) => record.dirty,
            None => false,
        };
        if was_dirty {
            self.queue_node(node);
        } else {
            let marked = self.mark_subtree_dirty(node);
            proof {
                assert(marked is Ok);
                assert(self.marked_from(&g0, node));
                assert(!g0.is_dirty(node));
                assert(self.pending() == g0.pending().push(node));
                self.lemma_marked_queued(&g0, node);
            }
        }
        let ghost g1 = *self;
        proof {
            assert(g1.marked_queued(&g0, node));
            assert(g1.is_dirty(node));
            assert(g1.pending()[g1.pending().len() - 1] == node);
            assert(g1.parent_of(node) == g0.parent_of(node));
            if let Some(p) = new_parent {
                assert(g1.has(p));
                assert(g1.is_ancestor(node, p) == g0.is_ancestor(node, p));
            }
        }
        self.relink(node, new_parent);
        proof {
            assert forall|x: NodeId| g0.has(x) implies {
                &&& #[trigger] self.node(x) == g0.node(x)
                &&& (x != node ==> self.parent_of(x) == g0.parent_of(x))
                &&& self.children_of(x) == if g0.parent_of(node) == Some(x) {
                    g0.children_of(x).remove_value(node)
                } else if new_parent == Some(x) {
                    g0.children_of(x).push(node)
                } else {
                    g0.children_of(x)
                }
            } by {
                assert(g1.has(x));
                assert(g1.is_dirty(x) == (g0.is_dirty(x) || (!g0.is_dirty(node) && g0.is_ancestor(node, x))));
                assert(g1.node(x) == g0.node(x));
                assert(g1.children_of(x) == g0.children_of(x));
                assert(g1.parent_of(x) == g0.parent_of(x));
                assert(self.node(x) == g1.node(x));
                assert(self.children_of(x) == if g1.parent_of(node) == Some(x) {
                    g1.children_of(x).remove_value(node)
                } else if new_parent == Some(x) {
                    g1.children_of(x).push(node)
                } else {
                    g1.children_of(x)
                });
            }
            assert forall|x: NodeId| g0.has(x) implies #[trigger] self.is_dirty(x) == (g0.is_dirty(x) || (
                !g0.is_dirty(node) && g0.is_ancestor(node, x))) by {
                assert(g1.has(x));
                assert(self.is_dirty(x) == g1.is_dirty(x));
                assert(g1.is_dirty(x) == (g0.is_dirty(x) || (!g0.is_dirty(node) && g0.is_ancestor(node, x))));
            }
            assert forall|x: NodeId| #[trigger] self.metadata_of(x) == g0.metadata_of(x) by {
                assert(self.metadata_of(x) == g1.metadata_of(x));
            }
        }
        Ok(())
    }

    /// Whether `self` is `old` with the subtree of `id` marked stale and `id`
    /// queued for an update.
    spec fn marked_queued(&self, old: &SceneGraph, id: NodeId) -> bool {
        &&& self.marked_nodes(old, id)
        &&& self.pending() == old.pending().push(id)
    }

    /// Marking a clean node's subtree queues that node.
    proof fn lemma_marked_queued(&self, g0: &SceneGraph, id: NodeId)
        requires
            self.marked_from(g0, id),
            !g0.is_dirty(id),
        ensures
            self.marked_queued(g0, id),
    {
    }

    /// Queues the already stale node `id` for an update.
    fn queue_node(&mut self, id: NodeId)
        requires
            old(self).wf(),
            old(self).has(id),
            old(self).is_dirty(id),
        ensures
            final(self).wf(),
            final(self).marked_queued(old(self), id),
    {
        let ghost g0 = *self;
        self.dirty_roots.push(id);
        proof {
            assert forall|x: u64| #[trigger] self.live(x) implies self.record_ok(x) by {
                assert(g0.live(x));
                assert(g0.record_ok(x));
            }
            assert(self.core_ok());
            assert forall|j: int| 0 <= j < self.dirty_roots@.len() implies self.live((#[trigger] self.dirty_roots@[j]).0) by {
                if j < g0.dirty_roots@.len() {
                    assert(g0.dirty_roots@[j] == self.dirty_roots@[j]);
                }
            }
            assert(self.refs_ok());
            assert forall|x: NodeId|
                #[trigger] self.has(x) && self.is_dirty(x) && !self.dirty_parent(x) implies self.pending().contains(x) by {
                assert(g0.has(x) && g0.is_dirty(x) && !g0.dirty_parent(x));
                let k = choose|k: int| 0 <= k < g0.dirty_roots@.len() && g0.dirty_roots@[k] == x;
                assert(self.dirty_roots@[k] == x);
            }
            assert(self.wf());
            assert forall|y: u64| #[trigger] self.parent_raw(y) == g0.parent_raw(y) by {}
            assert forall|x: u64, k: nat| #[trigger] self.anc(x, k) == g0.anc(x, k) by {
                self.lemma_anc_same(&g0, x, k);
            }
            assert forall|a: NodeId, x: NodeId| #[trigger] self.is_ancestor(a, x) == g0.is_ancestor(a, x) by {
                assert(self.anc(x.0, (self.depth@[x.0] - self.depth@[a.0]) as nat) == g0.anc(
                    x.0,
                    (self.depth@[x.0] - self.depth@[a.0]) as nat,
                ));
            }
            assert forall|x: NodeId| #[trigger] self.metadata_of(x) == g0.metadata_of(x) by {}
        }
    }

    /// Moves `node` under `new_parent`, or to the roots for `None`. The node
    /// must already be dirty, so that the moved subtree is stale.
    fn relink(&mut self, node: NodeId, new_parent: Option<NodeId>)
        requires
            old(self).wf(),
            old(self).has(node),
            old(self).is_dirty(node),
            old(self).pending().contains(node),
            old(self).parent_of(node) != new_parent,
            match new_parent {
                Some(p) => old(self).has(p) && !old(self).is_ancestor(node, p),
                None => true,
            },
        ensures
            final(self).wf(),
            final(self).relinked_from(old(self), node, new_parent),
    {
        let ghost g0 = *self;
        proof {
            assert(g0.record_ok(node.0));
        }
        self.unlink(node);
        let ghost g1 = *self;
        match new_parent {
            Some(p) => {
                match self.key(p) {
                    Some(pk) => {
                        proof {
                            assert(g0.record_ok(p.0));
                            if let Some(op) = g0.rec(node.0).parent {
                                assert(g0.record_ok(op.0));
                                assert(g0.key_of(p.0) != g0.key_of(op.0));
                            }
                            assert(g1.slots().contains_key(pk));
                        }
                        let record = slots_get_mut(&mut self.nodes, pk);
                        record.children.push(node);
                        proof {
                            assert(self.slots().dom() =~= g1.slots().dom());
                        }
                    },
                    None => {},
                }
            },
            None => {
                self.roots.push(node);
            },
        }
        let ghost g2 = *self;
        match self.key(node) {
            Some(nk) => {
                proof {
                    assert(g2.slots().dom() == g0.slots().dom());
                }
                let record = slots_get_mut(&mut self.nodes, nk);
                record.parent = new_parent;
                proof {
                    assert(self.slots().dom() =~= g2.slots().dom());
                }
            },
            None => {},
        }
        let ghost nd: nat = match new_parent {
            Some(p) => g0.depth@[p.0] + 1,
            None => 0,
        };
        proof {
            self.depth = Ghost(g0.shifted_depth(node, nd));
            self.lemma_relinked(&g0, &g1, &g2, node, new_parent, nd);
            self.lemma_dirt_pending_moved(&g0, node);
        }
    }

    /// The state left by `relink` satisfies the graph invariant and its contract.
    #[verifier::rlimit(60)]
    proof fn lemma_relinked(
        &self,
        g0: &SceneGraph,
        g1: &SceneGraph,
        g2: &SceneGraph,
        node: NodeId,
        new_parent: Option<NodeId>,
        nd: nat,
    )
        requires
            g0.wf(),
            g0.has(node),
            g0.is_dirty(node),
            g0.parent_of(node) != new_parent,
            match new_parent {
                Some(p) => g0.has(p) && !g0.is_ancestor(node, p) && nd == g0.depth@[p.0] + 1,
                None => nd == 0,
            },
            // After unlinking.
            g1.next_id == g0.next_id,
            g1.id_to_key == g0.id_to_key,
            g1.dirty_roots == g0.dirty_roots,
            g1.editor_metadata == g0.editor_metadata,
            g1.selection == g0.selection,
            g1.layer_policy == g0.layer_policy,
            g1.slots().dom() == g0.slots().dom(),
            match g0.rec(node.0).parent {
                Some(op) => {
                    &&& g1.roots == g0.roots
                    &&& forall|key: DefaultKey|
                        key != g0.key_of(op.0) ==> #[trigger] g1.slots()[key] == g0.slots()[key]
                    &&& g1.rec(op.0).id == g0.rec(op.0).id
                    &&& g1.rec(op.0).node == g0.rec(op.0).node
                    &&& g1.rec(op.0).parent == g0.rec(op.0).parent
                    &&& g1.rec(op.0).dirty == g0.rec(op.0).dirty
                    &&& g1.rec(op.0).children@ == g0.rec(op.0).children@.remove_value(node)
                },
                None => {
                    &&& g1.slots() == g0.slots()
                    &&& g1.roots@ == g0.roots@.remove_value(node)
                },
            },
            // After linking under the new parent.
            g2.next_id == g1.next_id,
            g2.id_to_key == g1.id_to_key,
            g2.dirty_roots == g1.dirty_roots,
            g2.editor_metadata == g1.editor_metadata,
            g2.selection == g1.selection,
            g2.layer_policy == g1.layer_policy,
            g2.slots().dom() == g1.slots().dom(),
            match new_parent {
                Some(p) => {
                    &&& g2.roots == g1.roots
                    &&& forall|key: DefaultKey|
                        key != g1.key_of(p.0) ==> #[trigger] g2.slots()[key] == g1.slots()[key]
                    &&& g2.rec(p.0).id == g1.rec(p.0).id
                    &&& g2.rec(p.0).node == g1.rec(p.0).node
                    &&& g2.rec(p.0).parent == g1.rec(p.0).parent
                    &&& g2.rec(p.0).dirty == g1.rec(p.0).dirty
                    &&& g2.rec(p.0).children@ == g1.rec(p.0).children@.push(node)
                },
                None => {
                    &&& g2.slots() == g1.slots()
                    &&& g2.roots@ == g1.roots@.push(node)
                },
            },
            // After setting the node's parent.
            self.next_id == g2.next_id,
            self.id_to_key == g2.id_to_key,
            self.dirty_roots == g2.dirty_roots,
            self.editor_metadata == g2.editor_metadata,
            self.selection == g2.selection,
            self.layer_policy == g2.layer_policy,
            self.roots == g2.roots,
            self.slots().dom() == g2.slots().dom(),
            forall|key: DefaultKey|
                key != g2.key_of(node.0) ==> #[trigger] self.slots()[key] == g2.slots()[key],
            self.rec(node.0).id == g2.rec(node.0).id,
            self.rec(node.0).node == g2.rec(node.0).node,
            self.rec(node.0).dirty == g2.rec(node.0).dirty,
            self.rec(node.0).children == g2.rec(node.0).children,
            self.rec(node.0).parent == new_parent,
            self.depth@ == g0.shifted_depth(node, nd),
        ensures
            self.core_ok(),
            self.refs_ok(),
            self.relinked_from(g0, node, new_parent),
    {
        let op_opt = g0.rec(node.0).parent;
        assert(g0.record_ok(node.0));
        assert forall|x: u64| #[trigger] self.live(x) == g0.live(x) by {}
        assert forall|x: u64| #[trigger] self.key_of(x) == g0.key_of(x) by {}
        // Keys of distinct live nodes differ.
        assert forall|x: u64, y: u64| g0.live(x) && g0.live(y) && x != y implies #[trigger] g0.key_of(x) != #[trigger] g0.key_of(y) by {
            assert(g0.record_ok(x));
            assert(g0.record_ok(y));
        }
        if let Some(p) = new_parent {
            assert(p != node) by {
                if p == node {
                    g0.lemma_ancestor_self(node);
                }
            }
        }
        // What each record looks like now.
        assert forall|x: u64| g0.live(x) implies {
            &&& #[trigger] self.rec(x).id == g0.rec(x).id
            &&& self.rec(x).node == g0.rec(x).node
            &&& self.rec(x).dirty == g0.rec(x).dirty
            &&& self.rec(x).parent == if x == node.0 {
                new_parent
            } else {
                g0.rec(x).parent
            }
            &&& self.rec(x).children@ == if op_opt == Some(NodeId(x)) {
                g0.rec(x).children@.remove_value(node)
            } else if new_parent == Some(NodeId(x)) {
                g0.rec(x).children@.push(node)
            } else {
                g0.rec(x).children@
            }
        } by {
            assert(NodeId(x) == NodeId(x));
            if let Some(op) = op_opt {
                if op.0 != x {
                    assert(g0.key_of(x) != g0.key_of(op.0));
                }
                assert(g0.live(op.0));
            }
            if let Some(p) = new_parent {
                if p.0 != x {
                    assert(g0.key_of(x) != g0.key_of(p.0));
                }
            }
            if x != node.0 {
                assert(g0.key_of(x) != g0.key_of(node.0));
            }
            if let Some(op) = op_opt {
                if let Some(p) = new_parent {
                    if op.0 == x {
                        assert(op != p);
                        assert(NodeId(x) == op);
                    }
                    if p.0 == x {
                        assert(NodeId(x) == p);
                    }
                } else if op.0 == x {
                    assert(NodeId(x) == op);
                }
            } else if let Some(p) = new_parent {
                if p.0 == x {
                    assert(NodeId(x) == p);
                }
            }
        }
        // Depths.
        let dn = g0.depth@[node.0];
        assert forall|x: u64| g0.live(x) implies #[trigger] self.depth@[x] == if g0.is_ancestor(node, NodeId(x)) {
            (g0.depth@[x] - dn + nd) as nat
        } else {
            g0.depth@[x]
        } by {
            assert(g0.record_ok(x));
            assert(g0.depth@.contains_key(x));
        }
        if let Some(p) = new_parent {
            assert(self.depth@[p.0] == g0.depth@[p.0]) by {
                assert(g0.record_ok(p.0));
                assert(NodeId(p.0) == p);
            }
        }
        g0.lemma_ancestor_self(node);
        assert(NodeId(node.0) == node);
        assert(self.depth@[node.0] == nd);
        assert forall|y: u64| #[trigger] self.live(y) implies self.record_ok(y) by {
            assert(g0.live(y));
            assert(g0.record_ok(y));
            let r = self.rec(y);
            let r0 = g0.rec(y);
            assert(self.rec(y).id == g0.rec(y).id);
            assert(self.depth@.contains_key(y));
            // The parent side.
            if y == node.0 {
                if let Some(p) = new_parent {
                    assert(self.rec(p.0).id == g0.rec(p.0).id);
                    assert(self.rec(p.0).children@ == g0.rec(p.0).children@.push(node)) by {
                        assert(NodeId(p.0) == p);
                        if op_opt == Some(p) {
                            assert(false);
                        }
                    }
                    assert(self.rec(p.0).children@[self.rec(p.0).children@.len() - 1] == node);
                } else {
                    lemma_push_contains(g1.roots@, node);
                    assert(op_opt is Some);
                }
            } else if let Some(q) = r0.parent {
                assert(g0.live(q.0));
                assert(self.rec(q.0).id == g0.rec(q.0).id);
                assert(g0.rec(q.0).children@.contains(NodeId(y)));
                assert(NodeId(q.0) == q);
                if op_opt == Some(q) {
                    assert(g0.record_ok(q.0));
                    lemma_remove_value(g0.rec(q.0).children@, node);
                    assert(NodeId(y) != node);
                } else if new_parent == Some(q) {
                    lemma_push_contains(g0.rec(q.0).children@, node);
                }
                // Depth of `y` against its (unchanged) parent.
                if g0.is_ancestor(node, NodeId(y)) {
                    g0.lemma_ancestor_up(node, NodeId(y));
                } else if g0.is_ancestor(node, q) {
                    g0.lemma_ancestor_down(node, NodeId(y));
                }
            } else {
                assert(g0.roots@.contains(NodeId(y)));
                if op_opt is None {
                    lemma_remove_value(g0.roots@, node);
                    assert(NodeId(y) != node);
                    if new_parent is None {
                        assert(false);
                    }
                } else if new_parent is None {
                    lemma_push_contains(g0.roots@, node);
                }
                if g0.is_ancestor(node, NodeId(y)) {
                    assert(NodeId(y) != node);
                    g0.lemma_ancestor_up(node, NodeId(y));
                }
            }
            // The child side.
            if op_opt == Some(NodeId(y)) {
                lemma_remove_value(r0.children@, node);
            }
            if new_parent == Some(NodeId(y)) {
                lemma_push_contains(r0.children@, node);
                assert(!r0.children@.contains(node)) by {
                    if r0.children@.contains(node) {
                        let j = choose|j: int| 0 <= j < r0.children@.len() && r0.children@[j] == node;
                        assert(g0.rec(node.0).parent == Some(NodeId(y)));
                    }
                }
                assert(r.children@.no_duplicates()) by {
                    assert forall|a: int, b: int| 0 <= a < b < r.children@.len() implies r.children@[a] != r.children@[b] by {
                        if b == r.children@.len() - 1 {
                            assert(r0.children@.contains(r.children@[a]));
                        }
                    }
                }
            }
            assert forall|j: int| 0 <= j < r.children@.len() implies {
                &&& self.live((#[trigger] r.children@[j]).0)
                &&& self.rec(r.children@[j].0).parent == Some(NodeId(y))
                &&& (r.dirty ==> self.rec(r.children@[j].0).dirty)
            } by {
                let c = r.children@[j];
                assert(r.children@.contains(c));
                if c == node {
                    assert(new_parent == Some(NodeId(y)) || r0.children@.contains(node));
                    if r0.children@.contains(node) && new_parent != Some(NodeId(y)) {
                        let k = choose|k: int| 0 <= k < r0.children@.len() && r0.children@[k] == node;
                        assert(g0.rec(node.0).parent == Some(NodeId(y)));
                        lemma_remove_value(r0.children@, node);
                    }
                    assert(self.rec(node.0).id == g0.rec(node.0).id);
                } else {
                    assert(r0.children@.contains(c));
                    let k = choose|k: int| 0 <= k < r0.children@.len() && r0.children@[k] == c;
                    assert(g0.live(c.0));
                    assert(self.rec(c.0).id == g0.rec(c.0).id);
                    assert(NodeId(c.0) == c);
                }
            }
        }
        // Roots.
        if op_opt is None {
            lemma_remove_value(g0.roots@, node);
        }
        if new_parent is None {
            lemma_push_contains(g1.roots@, node);
        }
        assert(self.roots@.no_duplicates()) by {
            if new_parent is None {
                assert(!g1.roots@.contains(node)) by {
                    if g1.roots@.contains(node) {
                        assert(g0.roots@.contains(node));
                        let k = choose|k: int| 0 <= k < g0.roots@.len() && g0.roots@[k] == node;
                        assert(g0.rec(node.0).parent is None);
                    }
                }
                assert forall|a: int, b: int| 0 <= a < b < self.roots@.len() implies self.roots@[a] != self.roots@[b] by {
                    if b == self.roots@.len() - 1 {
                        assert(g1.roots@.contains(self.roots@[a]));
                    } else {
                        assert(self.roots@[a] == g1.roots@[a]);
                        assert(self.roots@[b] == g1.roots@[b]);
                    }
                }
            }
        }
        assert forall|j: int| 0 <= j < self.roots@.len() implies {
            &&& self.live((#[trigger] self.roots@[j]).0)
            &&& self.rec(self.roots@[j].0).parent is None
        } by {
            let x = self.roots@[j];
            assert(self.roots@.contains(x));
            if x == node {
                assert(new_parent is None);
            } else {
                assert(g0.roots@.contains(x));
                let k = choose|k: int| 0 <= k < g0.roots@.len() && g0.roots@[k] == x;
                assert(g0.live(x.0));
                assert(self.rec(x.0).id == g0.rec(x.0).id);
            }
        }
        assert forall|i: int|
            0 <= i < self.editor_metadata@.len() && (#[trigger] self.editor_metadata@[i]) is Some implies self.live(i as u64) by {
            assert(g0.live(i as u64));
        }
        assert forall|j: int| 0 <= j < self.dirty_roots@.len() implies self.live((#[trigger] self.dirty_roots@[j]).0) by {
            assert(g0.live(self.dirty_roots@[j].0));
        }
        assert forall|j: int| 0 <= j < self.selection.selected@.len() implies self.live((#[trigger] self.selection.selected@[j]).0) by {
            assert(g0.live(self.selection.selected@[j].0));
        }
        assert(self.core_ok() && self.refs_ok());
        assert forall|x: NodeId| #[trigger] self.has(x) == g0.has(x) by {}
        assert forall|x: NodeId| g0.has(x) implies {
            &&& #[trigger] self.node(x) == g0.node(x)
            &&& self.is_dirty(x) == g0.is_dirty(x)
            &&& (x != node ==> self.parent_of(x) == g0.parent_of(x))
            &&& self.children_of(x) == if g0.parent_of(node) == Some(x) {
                g0.children_of(x).remove_value(node)
            } else if new_parent == Some(x) {
                g0.children_of(x).push(node)
            } else {
                g0.children_of(x)
            }
        } by {
            assert(self.rec(x.0).id == g0.rec(x.0).id);
            assert(NodeId(x.0) == x);
        }
        assert forall|x: NodeId| g0.has(x) implies #[trigger] self.is_dirty(x) == g0.is_dirty(x) by {
            assert(self.rec(x.0).id == g0.rec(x.0).id);
        }
        assert(self.same_editor_state(g0));
    }

    /// The highest dirty node on the chain from `id` up to its root, when
    /// `id` names a dirty node.
    fn highest_dirty_ancestor(&self, id: NodeId) -> (r: Option<NodeId>)
        requires
            self.wf(),
        ensures
            match r {
                Some(t) => {
                    &&& self.has(id)
                    &&& self.is_dirty(id)
                    &&& self.is_ancestor(t, id)
                    &&& self.is_dirty(t)
                    &&& (self.parent_of(t) matches Some(p) ==> !self.is_dirty(p))
                },
                None => !self.has(id) || !self.is_dirty(id),
            },
    {
        let record = match self.get_record(id) {
            Some(record) => record,
            None => return None,
        };
        if !record.dirty {
            return None;
        }
        proof {
            self.lemma_ancestor_self(id);
        }
        let mut current = id;
        loop
            invariant
                self.wf(),
                self.has(id),
                self.is_dirty(id),
                self.has(current),
                self.is_dirty(current),
                self.is_ancestor(current, id),
            decreases self.depth@[current.0],
        {
            proof {
                assert(self.record_ok(current.0));
            }
            let parent = match self.parent(current) {
                Some(p) => p,
                None => return Some(current),
            };
            let parent_dirty = match self.get_record(parent) {
                Some(record) => record.dirty,
                None => false,
            };
            if !parent_dirty {
                return Some(current);
            }
            proof {
                self.lemma_ancestor_self(parent);
                self.lemma_ancestor_down(parent, current);
                self.lemma_ancestor_trans(parent, current, id);
            }
            current = parent;
        }
    }

    /// Every node lies below one of the roots.
    proof fn lemma_root_above(&self, x: NodeId)
        requires
            self.wf(),
            self.has(x),
        ensures
            exists|r: NodeId| self.roots@.contains(r) && self.is_ancestor(r, x),
        decreases self.depth@[x.0],
    {
        assert(self.record_ok(x.0));
        assert(NodeId(x.0) == x);
        match self.rec(x.0).parent {
            Some(p) => {
                assert(self.live(p.0));
                self.lemma_root_above(p);
                let r = choose|r: NodeId| self.roots@.contains(r) && self.is_ancestor(r, p);
                self.lemma_ancestor_down(r, x);
            },
            None => {
                self.lemma_ancestor_self(x);
            },
        }
    }

    /// The node ids in depth-first order: each root in insertion order, then
    /// its subtree, children in insertion order.
    pub fn iter_depth_first(&self) -> (order: Vec<NodeId>)
        requires
            self.wf(),
        ensures
            order@ == self.dfs_order(self.root_ids().reverse()),
            order@.no_duplicates(),
            forall|x: NodeId| #[trigger] order@.contains(x) <==> self.has(x),
            self.parents_before(order@),
    {
        let mut stack: Vec<NodeId> = Vec::new();
        push_reversed(&mut stack, self.roots.as_slice());
        let ghost init = stack@;
        proof {
            assert(init =~= self.roots@.reverse());
            lemma_reverse(self.roots@);
            assert forall|j: int| 0 <= j < init.len() implies self.live((#[trigger] init[j]).0) && self.depth@[init[j].0] == 0 by {
                assert(init[j] == self.roots@[self.roots@.len() - 1 - j]);
                assert(self.live(init[j].0));
                assert(self.record_ok(init[j].0));
            }
        }
        let order = self.walk(stack, Ghost(0));
        proof {
            assert forall|x: NodeId| #[trigger] order@.contains(x) <==> self.has(x) by {
                if self.has(x) {
                    self.lemma_root_above(x);
                    let r = choose|r: NodeId| self.roots@.contains(r) && self.is_ancestor(r, x);
                    assert(init.contains(r));
                }
            }
            assert forall|j: int, k: int|
                0 <= j < order@.len() && 0 <= k < order@.len() && self.parent_of(#[trigger] order@[j]) == Some(
                    #[trigger] order@[k],
                ) implies k < j by {
                if init.contains(order@[j]) {
                    let i = choose|i: int| 0 <= i < init.len() && init[i] == order@[j];
                    assert(self.record_ok(init[i].0));
                    assert(NodeId(init[i].0) == init[i]);
                } else {
                    let k2 = choose|k2: int| 0 <= k2 < j && order@[k2] == self.parent_of(order@[j])->0;
                }
            }
        }
        order
    }

    /// The queue a breadth-first walk holds after `fuel` more steps, with
    /// the entries before `index` already visited.
    pub open spec fn bfs_trace(&self, queue: Seq<NodeId>, index: nat, fuel: nat) -> Seq<NodeId>
        decreases fuel,
    {
        if fuel == 0 || index >= queue.len() {
            queue
        } else {
            self.bfs_trace(queue + self.children_of(queue[index as int]), index + 1, (fuel - 1) as nat)
        }
    }

    /// The ids a breadth-first walk yields: the roots in insertion order, then
    /// the children of each yielded node in turn.
    pub open spec fn bfs_order(&self) -> Seq<NodeId> {
        self.bfs_trace(self.root_ids(), 0, self.next_raw() as nat)
    }

    /// Invariant of a breadth-first walk that has visited the first `index`
    /// entries of `queue`.
    spec fn bfs_inv(&self, queue: Seq<NodeId>, index: int) -> bool {
        &&& 0 <= index <= queue.len()
        &&& queue.no_duplicates()
        &&& forall|j: int|
            0 <= j < queue.len() ==> {
                &&& self.live((#[trigger] queue[j]).0)
                &&& (self.roots@.contains(queue[j]) || (self.parent_of(queue[j]) is Some && exists|k: int|
                    0 <= k < j && k < index && queue[k] == self.parent_of(queue[j])->0))
            }
        &&& forall|x: NodeId| #[trigger] self.roots@.contains(x) ==> queue.contains(x)
        &&& forall|k: int, c: NodeId|
            0 <= k < index && #[trigger] self.children_of(queue[k]).contains(c) ==> #[trigger] queue.contains(c)
    }

    /// At the end of a breadth-first walk every node is in the queue.
    proof fn lemma_bfs_done(&self, queue: Seq<NodeId>, x: NodeId)
        requires
            self.wf(),
            self.bfs_inv(queue, queue.len() as int),
            self.has(x),
        ensures
            queue.contains(x),
        decreases self.depth@[x.0],
    {
        assert(self.record_ok(x.0));
        assert(NodeId(x.0) == x);
        match self.rec(x.0).parent {
            Some(p) => {
                self.lemma_bfs_done(queue, p);
                let k = choose|k: int| 0 <= k < queue.len() && queue[k] == p;
                assert(self.children_of(queue[k]).contains(x));
            },
            None => {},
        }
    }

    /// The node ids in breadth-first order: the roots in insertion order, then
    /// their children level by level.
    pub fn iter_breadth_first(&self) -> (order: Vec<NodeId>)
        requires
            self.wf(),
        ensures
            order@ == self.bfs_order(),
            order@.no_duplicates(),
            forall|x: NodeId| #[trigger] order@.contains(x) <==> self.has(x),
            self.parents_before(order@),
    {
        let mut queue: Vec<NodeId> = Vec::new();
        append_all(&mut queue, self.roots.as_slice());
        let mut index: usize = 0;
        proof {
            assert(queue@ =~= self.roots@);
            assert forall|j: int| 0 <= j < queue@.len() implies {
                &&& self.live((#[trigger] queue@[j]).0)
                &&& (self.roots@.contains(queue@[j]) || (self.parent_of(queue@[j]) is Some && exists|k: int|
                    0 <= k < j && k < 0 && queue@[k] == self.parent_of(queue@[j])->0))
            } by {
                assert(self.roots@.contains(queue@[j]));
            }
            assert forall|j: int| 0 <= j < queue@.len() implies 1 <= (#[trigger] queue@[j]).0 < self.next_id by {}
            lemma_distinct_ids_bounded(queue@, self.next_id);
        }
        while index < queue.len()
            invariant
                self.wf(),
                self.bfs_inv(queue@, index as int),
                queue@.len() < self.next_id,
                self.bfs_trace(queue@, index as nat, (self.next_id - index) as nat) == self.bfs_order(),
            decreases self.next_id - index,
        {
            let ghost q0 = queue@;
            let ghost i0 = index;
            let id = queue[index];
            proof {
                assert(self.live(id.0));
                assert(self.record_ok(id.0));
            }
            index = index + 1;
            let children = match self.children(id) {
                Some(c) => c,
                None => &[],
            };
            append_all(&mut queue, children);
            proof {
                let cs = self.children_of(id);
                assert(queue@ == q0 + cs);
                lemma_concat_contains(q0, cs);
                assert forall|c: NodeId| cs.contains(c) implies !q0.contains(c) && self.live(c.0) && self.parent_of(c) == Some(id) by {
                    let j = choose|j: int| 0 <= j < cs.len() && cs[j] == c;
                    assert(self.live(cs[j].0));
                    assert(self.record_ok(c.0));
                    if q0.contains(c) {
                        let m = choose|m: int| 0 <= m < q0.len() && q0[m] == c;
                        if self.roots@.contains(c) {
                            let r = choose|r: int| 0 <= r < self.roots@.len() && self.roots@[r] == c;
                        } else {
                            let k = choose|k: int| 0 <= k < m && k < i0 && q0[k] == self.parent_of(q0[m])->0;
                            assert(q0[k] == q0[i0 as int]);
                        }
                    }
                }
                lemma_concat_no_dup(q0, cs);
                assert forall|j: int| 0 <= j < queue@.len() implies {
                    &&& self.live((#[trigger] queue@[j]).0)
                    &&& (self.roots@.contains(queue@[j]) || (self.parent_of(queue@[j]) is Some && exists|k: int|
                        0 <= k < j && k < index && queue@[k] == self.parent_of(queue@[j])->0))
                } by {
                    if j < q0.len() {
                        assert(queue@[j] == q0[j]);
                        assert(self.live(q0[j].0));
                        if !self.roots@.contains(q0[j]) {
                            let k = choose|k: int| 0 <= k < j && k < i0 && q0[k] == self.parent_of(q0[j])->0;
                            assert(queue@[k] == q0[k]);
                        }
                    } else {
                        let c = queue@[j];
                        assert(cs[j - q0.len()] == c);
                        assert(cs.contains(c));
                        assert(queue@[i0 as int] == id);
                        assert(self.parent_of(c) == Some(id));
                        assert(i0 < j);
                    }
                }
                assert forall|x: NodeId| #[trigger] self.roots@.contains(x) implies queue@.contains(x) by {
                    assert(q0.contains(x));
                }
                assert forall|k: int, c: NodeId|
                    0 <= k < index && #[trigger] self.children_of(queue@[k]).contains(c) implies #[trigger] queue@.contains(c) by {
                    assert(queue@[k] == q0[k]);
                    if k < i0 {
                        assert(q0.contains(c));
                    } else {
                        assert(q0[k] == id);
                    }
                }
                let fuel = (self.next_id - i0) as nat;
                assert(self.bfs_trace(q0, i0 as nat, fuel) == self.bfs_trace(queue@, index as nat, (fuel - 1) as nat));
                assert forall|j: int| 0 <= j < queue@.len() implies 1 <= (#[trigger] queue@[j]).0 < self.next_id by {}
                lemma_distinct_ids_bounded(queue@, self.next_id);
            }
        }
        proof {
            assert(self.bfs_trace(queue@, index as nat, (self.next_id - index) as nat) == queue@);
            assert forall|x: NodeId| #[trigger] queue@.contains(x) <==> self.has(x) by {
                if self.has(x) {
                    self.lemma_bfs_done(queue@, x);
                }
                if queue@.contains(x) {
                    let j = choose|j: int| 0 <= j < queue@.len() && queue@[j] == x;
                }
            }
            assert forall|j: int, k: int|
                0 <= j < queue@.len() && 0 <= k < queue@.len() && self.parent_of(#[trigger] queue@[j]) == Some(
                    #[trigger] queue@[k],
                ) implies k < j by {
                if self.roots@.contains(queue@[j]) {
                    let r = choose|r: int| 0 <= r < self.roots@.len() && self.roots@[r] == queue@[j];
                } else {
                    let k2 = choose|k2: int| 0 <= k2 < j && k2 < index && queue@[k2] == self.parent_of(queue@[j])->0;
                }
            }
        }
        queue
    }

    /// The first node in depth-first order named `name`.
    pub fn find_by_name(&self, name: &str) -> (r: Option<NodeId>)
        requires
            self.wf(),
        ensures
            ({
                let order = self.dfs_order(self.root_ids().reverse());
                match r {
                    Some(id) => exists|j: int|
                        0 <= j < order.len() && order[j] == id && self.node(id).name@ == name@ && forall|k: int|
                            0 <= k < j ==> self.node(#[trigger] order[k]).name@ != name@,
                    None => forall|j: int| 0 <= j < order.len() ==> self.node(#[trigger] order[j]).name@ != name@,
                }
            }),
    {
        let order = self.iter_depth_first();
        let target = name.to_owned();
        let mut i: usize = 0;
        while i < order.len()
            invariant
                self.wf(),
                i <= order@.len(),
                target@ == name@,
                order@ == self.dfs_order(self.root_ids().reverse()),
                forall|x: NodeId| #[trigger] order@.contains(x) <==> self.has(x),
                forall|k: int| 0 <= k < i ==> self.node(#[trigger] order@[k]).name@ != name@,
            decreases order@.len() - i,
        {
            let id = order[i];
            proof {
                assert(order@.contains(id));
            }
            match self.get(id) {
                Some(node) => {
                    if node.name == target {
                        proof {
                            assert(order@[i as int] == id);
                            assert(self.node(id).name@ == name@);
                        }
                        return Some(id);
                    }
                },
                None => {},
            }
            i = i + 1;
        }
        None
    }

    /// Whether the nodes, links, dirty flags and pending updates of `self`
    /// are those of `old`.
    pub open spec fn same_nodes(&self, old: &SceneGraph) -> bool {
        &&& forall|x: NodeId| #[trigger] self.has(x) == old.has(x)
        &&& self.next_raw() == old.next_raw()
        &&& self.stored() == old.stored()
        &&& self.root_ids() == old.root_ids()
        &&& self.pending() == old.pending()
        &&& forall|x: NodeId|
            old.has(x) ==> {
                &&& #[trigger] self.node(x) == old.node(x)
                &&& self.parent_of(x) == old.parent_of(x)
                &&& self.children_of(x) == old.children_of(x)
                &&& self.is_dirty(x) == old.is_dirty(x)
                &&& self.depth_of(x) == old.depth_of(x)
            }
        &&& forall|a: NodeId, x: NodeId| #[trigger] self.is_ancestor(a, x) == old.is_ancestor(a, x)
    }

    /// A graph whose node storage equals that of a valid graph keeps its
    /// core invariant and its nodes.
    proof fn lemma_same_storage(&self, g0: &SceneGraph)
        requires
            g0.wf(),
            self.nodes == g0.nodes,
            self.id_to_key == g0.id_to_key,
            self.next_id == g0.next_id,
            self.roots == g0.roots,
            self.dirty_roots == g0.dirty_roots,
            self.depth == g0.depth,
            self.editor_metadata@.len() <= self.next_id,
            forall|i: int|
                0 <= i < self.editor_metadata@.len() && (#[trigger] self.editor_metadata@[i]) is Some
                    ==> g0.live(i as u64),
        ensures
            self.core_ok(),
            self.same_nodes(g0),
            forall|j: int| 0 <= j < self.dirty_roots@.len() ==> self.live((#[trigger] self.dirty_roots@[j]).0),
    {
        assert forall|x: u64| #[trigger] self.live(x) implies self.record_ok(x) by {
            assert(g0.live(x));
            assert(g0.record_ok(x));
        }
        assert forall|x: u64| #[trigger] self.parent_raw(x) == g0.parent_raw(x) by {}
        assert forall|x: u64, k: nat| #[trigger] self.anc(x, k) == g0.anc(x, k) by {
            self.lemma_anc_same(g0, x, k);
        }
        assert forall|a: NodeId, x: NodeId| #[trigger] self.is_ancestor(a, x) == g0.is_ancestor(a, x) by {
            assert(self.anc(x.0, (self.depth@[x.0] - self.depth@[a.0]) as nat) == g0.anc(
                x.0,
                (self.depth@[x.0] - self.depth@[a.0]) as nat,
            ));
        }
        assert forall|j: int| 0 <= j < self.roots@.len() implies {
            &&& self.live((#[trigger] self.roots@[j]).0)
            &&& self.rec(self.roots@[j].0).parent is None
        } by {
            assert(g0.live(self.roots@[j].0));
        }
        assert forall|j: int| 0 <= j < self.dirty_roots@.len() implies self.live((#[trigger] self.dirty_roots@[j]).0) by {
            assert(g0.live(self.dirty_roots@[j].0));
        }
        assert forall|x: NodeId| #[trigger] self.has(x) == g0.has(x) by {}
    }

    /// Whether the node's metadata (none: every permission) lets it be selected.
    pub open spec fn meta_selectable(m: Option<NodeEditorMetadata>) -> bool {
        match m {
            Some(m) => m.selectable && !m.locked,
            None => true,
        }
    }

    /// Whether the node's metadata (none: every permission) lets it be dragged.
    pub open spec fn meta_draggable(m: Option<NodeEditorMetadata>) -> bool {
        match m {
            Some(m) => m.draggable && !m.locked,
            None => true,
        }
    }

    /// Whether the node's metadata (none: every permission) lets it be transformed.
    pub open spec fn meta_transformable(m: Option<NodeEditorMetadata>) -> bool {
        match m {
            Some(m) => m.transformable && !m.locked,
            None => true,
        }
    }

    /// Whether node `id` exists, is visible, is allowed by its metadata and
    /// lies on a selectable layer.
    pub open spec fn can_select(&self, id: NodeId) -> bool {
        &&& self.has(id)
        &&& self.node(id).visible
        &&& Self::meta_selectable(self.metadata_of(id))
        &&& self.policy().selectable.spec_bits() & self.node(id).layer != 0
    }

    /// Whether node `id` exists, is visible, is allowed by its metadata and
    /// lies on a draggable layer.
    pub open spec fn can_drag(&self, id: NodeId) -> bool {
        &&& self.has(id)
        &&& self.node(id).visible
        &&& Self::meta_draggable(self.metadata_of(id))
        &&& self.policy().draggable.spec_bits() & self.node(id).layer != 0
    }

    /// Whether node `id` exists, is visible, is allowed by its metadata and
    /// lies on a transformable layer.
    pub open spec fn can_transform(&self, id: NodeId) -> bool {
        &&& self.has(id)
        &&& self.node(id).visible
        &&& Self::meta_transformable(self.metadata_of(id))
        &&& self.policy().transformable.spec_bits() & self.node(id).layer != 0
    }

    /// Returns the explicit editor metadata of `id`; `None` when `id` names
    /// no node or uses the defaults.
    pub fn editor_metadata(&self, id: NodeId) -> (r: Option<&NodeEditorMetadata>)
        requires
            self.wf(),
        ensures
            match r {
                Some(m) => self.has(id) && self.metadata_of(id) == Some(*m),
                None => !self.has(id) || self.metadata_of(id) is None,
            },
    {
        let index = match id_index(id) {
            Some(index) => index,
            None => return None,
        };
        if self.key(id).is_none() {
            return None;
        }
        if index < self.editor_metadata.len() {
            match &self.editor_metadata[index] {
                Some(m) => Some(m),
                None => None,
            }
        } else {
            None
        }
    }

    /// Returns the editor metadata of `id` by value, the defaults when none
    /// was set, or `None` when `id` names no node.
    pub fn editor_metadata_or_default(&self, id: NodeId) -> (r: Option<NodeEditorMetadata>)
        requires
            self.wf(),
        ensures
            match r {
                Some(m) => self.has(id) && match self.metadata_of(id) {
                    Some(stored) => m.same_as(stored),
                    None => m.is_default_spec(),
                },
                None => !self.has(id),
            },
    {
        if self.key(id).is_none() {
            return None;
        }
        match self.editor_metadata(id) {
            Some(m) => Some(m.clone()),
            None => Some(NodeEditorMetadata::default()),
        }
    }

    /// Attaches editor metadata to `id`; default metadata is stored as none.
    /// Fails with `InvalidId`, changing nothing, when `id` names no node.
    pub fn set_editor_metadata(&mut self, id: NodeId, metadata: NodeEditorMetadata) -> (r: Result<(), ValidationError>)
        requires
            old(self).wf(),
        ensures
            final(self).wf(),
            final(self).same_nodes(old(self)),
            final(self).selection_spec() == old(self).selection_spec(),
            final(self).policy() == old(self).policy(),
            match r {
                Ok(()) => {
                    &&& old(self).has(id)
                    &&& final(self).metadata_of(id) == if metadata.is_default_spec() {
                        None
                    } else {
                        Some(metadata)
                    }
                    &&& forall|x: NodeId| x != id ==> #[trigger] final(self).metadata_of(x) == old(self).metadata_of(x)
                },
                Err(e) => !old(self).has(id) && e == ValidationError::InvalidId && *final(self)
                    == *old(self),
            },
    {
        if self.key(id).is_none() {
            return Err(ValidationError::InvalidId);
        }
        let ghost g0 = *self;
        let index = id.get() as usize;
        self.reserve_metadata(index);
        let value = if metadata.is_default() {
            None
        } else {
            Some(metadata)
        };
        self.editor_metadata.set(index, value);
        proof {
            assert forall|i: int|
                0 <= i < self.editor_metadata@.len() && (#[trigger] self.editor_metadata@[i]) is Some implies g0.live(i as u64) by {
                if i != index {
                    assert(g0.editor_metadata@[i] is Some);
                }
            }
            self.lemma_same_storage(&g0);
            assert forall|x: NodeId| x != id implies #[trigger] self.metadata_of(x) == g0.metadata_of(x) by {
                if x.0 == id.0 {
                    assert(x == id);
                }
            }
        }
        Ok(())
    }

    /// Removes the explicit editor metadata of `id`, so the defaults apply
    /// again. Fails with `InvalidId`, changing nothing, when `id` names no node.
    pub fn clear_editor_metadata(&mut self, id: NodeId) -> (r: Result<(), ValidationError>)
        requires
            old(self).wf(),
        ensures
            final(self).wf(),
            final(self).same_nodes(old(self)),
            final(self).selection_spec() == old(self).selection_spec(),
            final(self).policy() == old(self).policy(),
            match r {
                Ok(()) => {
                    &&& old(self).has(id)
                    &&& final(self).metadata_of(id) is None
                    &&& forall|x: NodeId| x != id ==> #[trigger] final(self).metadata_of(x) == old(self).metadata_of(x)
                },
                Err(e) => !old(self).has(id) && e == ValidationError::InvalidId && *final(self)
                    == *old(self),
            },
    {
        if self.key(id).is_none() {
            return Err(ValidationError::InvalidId);
        }
        let ghost g0 = *self;
        let index = id.get() as usize;
        if index < self.editor_metadata.len() {
            self.editor_metadata.set(index, None);
        }
        proof {
            assert forall|i: int|
                0 <= i < self.editor_metadata@.len() && (#[trigger] self.editor_metadata@[i]) is Some implies g0.live(i as u64) by {
                assert(g0.editor_metadata@[i] is Some);
            }
            self.lemma_same_storage(&g0);
            assert forall|x: NodeId| x != id implies #[trigger] self.metadata_of(x) == g0.metadata_of(x) by {
                if x.0 == id.0 {
                    assert(x == id);
                }
            }
        }
        Ok(())
    }

    /// Returns the interaction layer policy.
    pub fn layer_policy(&self) -> (p: LayerPolicy)
        ensures
            p == self.policy(),
    {
        self.layer_policy
    }

    /// Replaces the interaction layer policy.
    pub fn set_layer_policy(&mut self, policy: LayerPolicy)
        requires
            old(self).wf(),
        ensures
            final(self).wf(),
            final(self).same_nodes(old(self)),
            final(self).policy() == policy,
            final(self).selection_spec() == old(self).selection_spec(),
            forall|x: NodeId| #[trigger] final(self).metadata_of(x) == old(self).metadata_of(x),
    {
        let ghost g0 = *self;
        self.layer_policy = policy;
        proof {
            self.lemma_same_storage(&g0);
        }
    }

    /// Returns whether `id` may be selected under the current metadata and layers.
    pub fn is_selectable(&self, id: NodeId) -> (b: bool)
        requires
            self.wf(),
        ensures
            b == self.can_select(id),
    {
        match self.get(id) {
            Some(node) => {
                let (selectable, locked) = match self.editor_metadata(id) {
                    Some(m) => (m.selectable, m.locked),
                    None => (true, false),
                };
                node.visible && selectable && !locked && self.layer_policy.selectable.matches_node(node.layer)
            },
            None => false,
        }
    }

    /// Returns whether `id` may be dragged under the current metadata and layers.
    pub fn is_draggable(&self, id: NodeId) -> (b: bool)
        requires
            self.wf(),
        ensures
            b == self.can_drag(id),
    {
        match self.get(id) {
            Some(node) => {
                let (draggable, locked) = match self.editor_metadata(id) {
                    Some(m) => (m.draggable, m.locked),
                    None => (true, false),
                };
                node.visible && draggable && !locked && self.layer_policy.draggable.matches_node(node.layer)
            },
            None => false,
        }
    }

    /// Returns whether `id` may be transformed under the current metadata and layers.
    pub fn is_transformable(&self, id: NodeId) -> (b: bool)
        requires
            self.wf(),
        ensures
            b == self.can_transform(id),
    {
        match self.get(id) {
            Some(node) => {
                let (transformable, locked) = match self.editor_metadata(id) {
                    Some(m) => (m.transformable, m.locked),
                    None => (true, false),
                };
                node.visible && transformable && !locked && self.layer_policy.transformable.matches_node(
                    node.layer,
                )
            },
            None => false,
        }
    }

    /// Whether only the selection of `self` may differ from `old`.
    pub open spec fn only_selection_changed(&self, old: &SceneGraph) -> bool {
        &&& self.same_nodes(old)
        &&& forall|x: NodeId| #[trigger] self.metadata_of(x) == old.metadata_of(x)
        &&& self.policy() == old.policy()
    }

    /// Returns the in-graph selection.
    pub fn selection(&self) -> (r: &SelectionState)
        ensures
            *r == self.selection_spec(),
    {
        &self.selection
    }

    /// A graph whose storage equals that of a valid graph and whose selection
    /// is well formed and refers to its nodes is valid.
    proof fn lemma_selection_only(&self, g0: &SceneGraph)
        requires
            g0.wf(),
            self.nodes == g0.nodes,
            self.id_to_key == g0.id_to_key,
            self.next_id == g0.next_id,
            self.roots == g0.roots,
            self.dirty_roots == g0.dirty_roots,
            self.depth == g0.depth,
            self.editor_metadata == g0.editor_metadata,
            self.layer_policy == g0.layer_policy,
            self.selection.wf(),
            forall|x: NodeId| #[trigger] self.selection.selected_set().contains(x) ==> g0.has(x),
            self.selection.hovered matches Some(h) ==> g0.has(h),
            self.selection.active matches Some(a) ==> g0.has(a),
        ensures
            self.wf(),
            self.only_selection_changed(g0),
    {
        assert forall|i: int|
            0 <= i < self.editor_metadata@.len() && (#[trigger] self.editor_metadata@[i]) is Some implies g0.live(i as u64) by {}
        self.lemma_same_storage(g0);
        assert forall|j: int| 0 <= j < self.selection.selected@.len() implies self.live((#[trigger] self.selection.selected@[j]).0) by {
            let x = self.selection.selected@[j];
            assert(self.selection.selected@.contains(x));
            assert(self.selection.selected_set().contains(x));
        }
    }

    /// Selects `id` combined with the current selection as `mode` says, and
    /// reports what changed. Fails with `InvalidId` when `id` names no node,
    /// and with `InvalidState` when the mode adds and the node may not be
    /// selected; a failed call changes nothing.
    pub fn select(&mut self, id: NodeId, mode: SelectionMode) -> (r: Result<SelectionChange, ValidationError>)
        requires
            old(self).wf(),
        ensures
            final(self).wf(),
            match r {
                Ok(c) => {
                    &&& old(self).has(id)
                    &&& (mode == SelectionMode::Remove || old(self).can_select(id))
                    &&& final(self).only_selection_changed(old(self))
                    &&& final(self).selection_spec().selected_set() == apply_mode(
                        old(self).selection_spec().selected_set(),
                        id,
                        mode,
                    )
                    &&& final(self).selection_spec().hovered == old(self).selection_spec().hovered
                    &&& final(self).selection_spec().active == old(self).selection_spec().active
                    &&& is_diff(c, old(self).selection_spec().selected_set(), final(self).selection_spec().selected_set())
                },
                Err(e) => {
                    &&& *final(self) == *old(self)
                    &&& e == if !old(self).has(id) {
                        ValidationError::InvalidId
                    } else {
                        ValidationError::InvalidState
                    }
                    &&& (old(self).has(id) ==> mode != SelectionMode::Remove && !old(self).can_select(id))
                },
            },
    {
        if self.key(id).is_none() {
            return Err(ValidationError::InvalidId);
        }
        if mode != SelectionMode::Remove && !self.is_selectable(id) {
            return Err(ValidationError::InvalidState);
        }
        let ghost g0 = *self;
        let change = apply_selection(&mut self.selection, id, mode);
        proof {
            assert forall|x: NodeId| #[trigger] self.selection.selected_set().contains(x) implies g0.has(x) by {
                if x != id {
                    assert(g0.selection.selected_set().contains(x));
                    let j = choose|j: int| 0 <= j < g0.selection.selected@.len() && g0.selection.selected@[j] == x;
                    assert(g0.live(g0.selection.selected@[j].0));
                }
            }
            self.lemma_selection_only(&g0);
        }
        Ok(change)
    }

    /// Replaces the selection with the given ids that may be selected, and
    /// reports what changed. Fails with `InvalidId`, changing nothing, when
    /// any id names no node.
    pub fn select_many(&mut self, ids: Vec<NodeId>) -> (r: Result<SelectionChange, ValidationError>)
        requires
            old(self).wf(),
        ensures
            final(self).wf(),
            match r {
                Ok(c) => {
                    &&& forall|j: int| 0 <= j < ids@.len() ==> old(self).has(#[trigger] ids@[j])
                    &&& final(self).only_selection_changed(old(self))
                    &&& forall|x: NodeId|
                        #[trigger] final(self).selection_spec().selected_set().contains(x) <==> (ids@.contains(x)
                            && old(self).can_select(x))
                    &&& final(self).selection_spec().hovered == old(self).selection_spec().hovered
                    &&& final(self).selection_spec().active == old(self).selection_spec().active
                    &&& is_diff(c, old(self).selection_spec().selected_set(), final(self).selection_spec().selected_set())
                },
                Err(e) => {
                    &&& *final(self) == *old(self)
                    &&& e == ValidationError::InvalidId
                    &&& exists|j: int| 0 <= j < ids@.len() && !old(self).has(#[trigger] ids@[j])
                },
            },
    {
        let mut selected: Vec<NodeId> = Vec::new();
        let mut i: usize = 0;
        while i < ids.len()
            invariant
                self.wf(),
                i <= ids@.len(),
                forall|j: int| 0 <= j < i ==> self.has(#[trigger] ids@[j]),
                forall|x: NodeId| #[trigger] selected@.contains(x) <==> (ids@.take(i as int).contains(x) && self.can_select(x)),
            decreases ids@.len() - i,
        {
            let id = ids[i];
            if self.key(id).is_none() {
                return Err(ValidationError::InvalidId);
            }
            let ghost before = selected@;
            if self.is_selectable(id) {
                selected.push(id);
            }
            proof {
                assert(ids@.take(i + 1) =~= ids@.take(i as int).push(id));
                lemma_push_contains(ids@.take(i as int), id);
                lemma_push_contains(before, id);
            }
            i = i + 1;
        }
        proof {
            assert(ids@.take(ids@.len() as int) =~= ids@);
        }
        let ghost g0 = *self;
        let change = replace_selection(&mut self.selection, selected);
        proof {
            assert forall|x: NodeId| #[trigger] self.selection.selected_set().contains(x) implies g0.has(x) by {
                assert(selected@.to_set().contains(x));
                assert(selected@.contains(x));
            }
            self.lemma_selection_only(&g0);
            assert forall|x: NodeId|
                #[trigger] self.selection_spec().selected_set().contains(x) <==> (ids@.contains(x) && g0.can_select(x)) by {
                assert(self.selection_spec().selected_set().contains(x) == selected@.to_set().contains(x));
            }
        }
        Ok(change)
    }

    /// Empties the selection and reports what changed.
    pub fn clear_selection(&mut self) -> (c: SelectionChange)
        requires
            old(self).wf(),
        ensures
            final(self).wf(),
            final(self).only_selection_changed(old(self)),
            final(self).selection_spec().selected_set() == Set::<NodeId>::empty(),
            final(self).selection_spec().hovered == old(self).selection_spec().hovered,
            final(self).selection_spec().active == old(self).selection_spec().active,
            is_diff(c, old(self).selection_spec().selected_set(), Set::<NodeId>::empty()),
    {
        let ghost g0 = *self;
        let empty: Vec<NodeId> = Vec::new();
        let change = replace_selection(&mut self.selection, empty);
        proof {
            assert(empty@.to_set() =~= Set::<NodeId>::empty());
            self.lemma_selection_only(&g0);
        }
        change
    }

    /// Sets the hovered node after checking that it may be selected. Fails
    /// with `InvalidId` when the id names no node and with `InvalidState` when
    /// it may not be selected; a failed call changes nothing.
    pub fn set_hovered(&mut self, id: Option<NodeId>) -> (r: Result<(), ValidationError>)
        requires
            old(self).wf(),
        ensures
            final(self).wf(),
            match r {
                Ok(()) => {
                    &&& (id matches Some(h) ==> old(self).can_select(h))
                    &&& final(self).only_selection_changed(old(self))
                    &&& final(self).selection_spec() == (SelectionState {
                        hovered: id,
                        ..old(self).selection_spec()
                    })
                },
                Err(e) => {
                    &&& *final(self) == *old(self)
                    &&& id matches Some(h) && !old(self).can_select(h) && e == if old(self).has(h) {
                        ValidationError::InvalidState
                    } else {
                        ValidationError::InvalidId
                    }
                },
            },
    {
        if let Some(h) = id {
            if self.key(h).is_none() {
                return Err(ValidationError::InvalidId);
            }
            if !self.is_selectable(h) {
                return Err(ValidationError::InvalidState);
            }
        }
        let ghost g0 = *self;
        self.selection.hovered = id;
        proof {
            self.lemma_selection_only(&g0);
        }
        Ok(())
    }

    /// Sets the node receiving active interaction after checking that it may
    /// be transformed or dragged. Fails with `InvalidId` when the id names no
    /// node and with `InvalidState` when it may be neither; a failed call
    /// changes nothing.
    pub fn set_active(&mut self, id: Option<NodeId>) -> (r: Result<(), ValidationError>)
        requires
            old(self).wf(),
        ensures
            final(self).wf(),
            match r {
                Ok(()) => {
                    &&& (id matches Some(a) ==> old(self).can_transform(a) || old(self).can_drag(a))
                    &&& final(self).only_selection_changed(old(self))
                    &&& final(self).selection_spec() == (SelectionState {
                        active: id,
                        ..old(self).selection_spec()
                    })
                },
                Err(e) => {
                    &&& *final(self) == *old(self)
                    &&& id matches Some(a) && !old(self).can_transform(a) && !old(self).can_drag(a) && e
                        == if old(self).has(a) {
                        ValidationError::InvalidState
                    } else {
                        ValidationError::InvalidId
                    }
                },
            },
    {
        if let Some(a) = id {
            if self.key(a).is_none() {
                return Err(ValidationError::InvalidId);
            }
            if !self.is_transformable(a) && !self.is_draggable(a) {
                return Err(ValidationError::InvalidState);
            }
        }
        let ghost g0 = *self;
        self.selection.active = id;
        proof {
            self.lemma_selection_only(&g0);
        }
        Ok(())
    }

    /// Accepts an editor transform of `id` when the node may be transformed
    /// or dragged, marking its subtree stale; the caller stores the new local
    /// transform. Fails with `InvalidId` when `id` names no node and with
    /// `InvalidState` when it may be neither transformed nor dragged; a
    /// failed call changes nothing.
    pub fn set_editor_transform(&mut self, id: NodeId) -> (r: Result<(), ValidationError>)
        requires
            old(self).wf(),
        ensures
            final(self).wf(),
            match r {
                Ok(()) => {
                    &&& old(self).can_transform(id) || old(self).can_drag(id)
                    &&& final(self).marked_from(old(self), id)
                },
                Err(e) => {
                    &&& *final(self) == *old(self)
                    &&& !old(self).can_transform(id) && !old(self).can_drag(id)
                    &&& e == if old(self).has(id) {
                        ValidationError::InvalidState
                    } else {
                        ValidationError::InvalidId
                    }
                },
            },
    {
        if !self.is_transformable(id) && !self.is_draggable(id) {
            return Err(
                if self.get(id).is_some() {
                    ValidationError::InvalidState
                } else {
                    ValidationError::InvalidId
                },
            );
        }
        self.mark_subtree_dirty(id)
    }

    /// Returns mutable access to the data of `id`, first marking its subtree
    /// stale; whatever the caller writes through the reference becomes the
    /// node's data.
    pub fn get_mut(&mut self, id: NodeId) -> (r: Option<&mut SceneNode>)
        requires
            old(self).wf(),
        ensures
            match r {
                Some(n) => {
                    &&& old(self).has(id)
                    &&& *n == old(self).node(id)
                    &&& final(self).wf()
                    &&& final(self).node(id) == *final(n)
                    &&& forall|x: NodeId| old(self).has(x) && x != id ==> #[trigger] final(self).node(x) == old(self).node(x)
                    &&& forall|x: NodeId| #[trigger] final(self).has(x) == old(self).has(x)
                    &&& forall|x: NodeId|
                        old(self).has(x) ==> #[trigger] final(self).is_dirty(x) == (old(self).is_dirty(x) || (
                        !old(self).is_dirty(id) && old(self).is_ancestor(id, x)))
                    &&& final(self).pending() == if old(self).is_dirty(id) {
                        old(self).pending()
                    } else {
                        old(self).pending().push(id)
                    }
                    &&& forall|x: NodeId|
                        old(self).has(x) ==> #[trigger] final(self).parent_of(x) == old(self).parent_of(x)
                            && final(self).children_of(x) == old(self).children_of(x)
                    &&& final(self).root_ids() == old(self).root_ids()
                    &&& final(self).next_raw() == old(self).next_raw()
                    &&& final(self).stored() == old(self).stored()
                    &&& final(self).same_editor_state(old(self))
                },
                None => !old(self).has(id) && *final(self) == *old(self),
            },
    {
        if self.mark_subtree_dirty(id).is_err() {
            return None;
        }
        let key = match self.key(id) {
            Some(k) => k,
            None => return None,
        };
        let ghost g0 = *old(self);
        let ghost g1 = *self;
        proof {
            assert(self.record_ok(id.0));
            assert(g1.marked_from(&g0, id));
            g1.lemma_node_swap(id);
            assert forall|x: NodeId| g0.has(x) implies #[trigger] g1.node(x) == g0.node(x) by {
                assert(g1.is_dirty(x) == (g0.is_dirty(x) || (!g0.is_dirty(id) && g0.is_ancestor(id, x))));
            }
            assert(g1.node(id) == g0.node(id));
            assert forall|x: NodeId| g0.has(x) implies #[trigger] g1.parent_of(x) == g0.parent_of(x)
                && g1.children_of(x) == g0.children_of(x) && g1.has(x) by {
                assert(g1.is_dirty(x) == (g0.is_dirty(x) || (!g0.is_dirty(id) && g0.is_ancestor(id, x))));
            }
        }
        let record = slots_get_mut(&mut self.nodes, key);
        Some(&mut record.node)
    }

    /// Replacing the data of one node keeps the graph valid and changes no
    /// other node.
    proof fn lemma_node_swap(&self, id: NodeId)
        requires
            self.wf(),
            self.has(id),
        ensures
            forall|m: NodeSlots, r: NodeRecord|
                #![trigger slot_records(m), self.slots().insert(self.key_of(id.0), r)]
                slot_records(m) == self.slots().insert(self.key_of(id.0), r) && r.id == self.rec(id.0).id
                    && r.parent == self.rec(id.0).parent && r.children == self.rec(id.0).children && r.dirty
                    == self.rec(id.0).dirty ==> {
                    let g = SceneGraph { nodes: m, ..*self };
                    &&& g.wf()
                    &&& g.node(id) == r.node
                    &&& forall|x: NodeId| self.has(x) && x != id ==> #[trigger] g.node(x) == self.node(x)
                    &&& forall|x: NodeId| #[trigger] g.has(x) == self.has(x)
                    &&& forall|x: NodeId| self.has(x) ==> #[trigger] g.is_dirty(x) == self.is_dirty(x)
                    &&& g.pending() == self.pending()
                    &&& forall|x: NodeId|
                        self.has(x) ==> #[trigger] g.parent_of(x) == self.parent_of(x) && g.children_of(x)
                            == self.children_of(x)
                    &&& g.stored() == self.stored()
                    &&& g.same_editor_state(self)
                },
    {
        assert forall|m: NodeSlots, r: NodeRecord|
            #![trigger slot_records(m), self.slots().insert(self.key_of(id.0), r)]
            slot_records(m) == self.slots().insert(self.key_of(id.0), r) && r.id == self.rec(id.0).id
                && r.parent == self.rec(id.0).parent && r.children == self.rec(id.0).children && r.dirty
                == self.rec(id.0).dirty implies {
                let g = SceneGraph { nodes: m, ..*self };
                &&& g.wf()
                &&& g.node(id) == r.node
                &&& forall|x: NodeId| self.has(x) && x != id ==> #[trigger] g.node(x) == self.node(x)
                &&& forall|x: NodeId| #[trigger] g.has(x) == self.has(x)
                &&& forall|x: NodeId| self.has(x) ==> #[trigger] g.is_dirty(x) == self.is_dirty(x)
                &&& g.pending() == self.pending()
                &&& forall|x: NodeId|
                    self.has(x) ==> #[trigger] g.parent_of(x) == self.parent_of(x) && g.children_of(x)
                        == self.children_of(x)
                &&& g.stored() == self.stored()
                &&& g.same_editor_state(self)
            } by {
            let g = SceneGraph { nodes: m, ..*self };
            assert(self.record_ok(id.0));
            assert forall|x: u64| #[trigger] g.live(x) == self.live(x) by {}
            assert forall|x: u64| self.live(x) implies {
                &&& #[trigger] g.rec(x).id == self.rec(x).id
                &&& g.rec(x).parent == self.rec(x).parent
                &&& g.rec(x).children == self.rec(x).children
                &&& g.rec(x).dirty == self.rec(x).dirty
                &&& (x != id.0 ==> g.rec(x) == self.rec(x))
            } by {
                assert(self.record_ok(x));
                if x != id.0 {
                    assert(self.key_of(x) != self.key_of(id.0));
                }
            }
            assert forall|y: u64| #[trigger] g.live(y) implies g.record_ok(y) by {
                assert(self.record_ok(y));
                assert(g.rec(y).id == self.rec(y).id);
                let rr = g.rec(y);
                if let Some(q) = rr.parent {
                    assert(g.rec(q.0).id == self.rec(q.0).id);
                }
                assert forall|j: int| 0 <= j < rr.children@.len() implies {
                    &&& g.live((#[trigger] rr.children@[j]).0)
                    &&& g.rec(rr.children@[j].0).parent == Some(NodeId(y))
                    &&& (rr.dirty ==> g.rec(rr.children@[j].0).dirty)
                } by {
                    assert(self.live(rr.children@[j].0));
                    assert(g.rec(rr.children@[j].0).id == self.rec(rr.children@[j].0).id);
                }
            }
            assert forall|j: int| 0 <= j < g.roots@.len() implies {
                &&& g.live((#[trigger] g.roots@[j]).0)
                &&& g.rec(g.roots@[j].0).parent is None
            } by {
                assert(self.live(g.roots@[j].0));
                assert(g.rec(g.roots@[j].0).id == self.rec(g.roots@[j].0).id);
            }
            assert(g.slots().dom() =~= self.slots().dom());
            assert forall|x: NodeId| #[trigger] g.has(x) == self.has(x) by {}
            assert forall|x: NodeId|
                self.has(x) implies #[trigger] g.parent_of(x) == self.parent_of(x) && g.is_dirty(x) == self.is_dirty(x) by {
                assert(g.rec(x.0).id == self.rec(x.0).id);
            }
            g.lemma_dirt_pending_kept(self);
            assert(g.wf());
            assert forall|x: NodeId| self.has(x) && x != id implies #[trigger] g.node(x) == self.node(x) by {
                assert(g.rec(x.0).id == self.rec(x.0).id);
                assert(x.0 != id.0);
            }
            assert forall|x: NodeId| self.has(x) implies #[trigger] g.is_dirty(x) == self.is_dirty(x) by {
                assert(g.rec(x.0).id == self.rec(x.0).id);
            }
            assert forall|x: NodeId| #[trigger] g.has(x) == self.has(x) by {}
        }
    }

}

impl Default for SceneGraph {
    fn default() -> (g: SceneGraph)
        ensures
            g.wf(),
            g.is_empty_graph(),
            g.next_raw() == 1,
            g.stored() == 0,
            forall|id: NodeId| !(#[trigger] g.has(id)),
    {
        SceneGraph::new()
    }
}

/// Every node id is below the next id to be handed out, so an id, once
/// removed, is never given to a new node.
pub proof fn lemma_ids_below_next(g: &SceneGraph, x: NodeId)
    requires
        g.wf(),
        g.has(x),
    ensures
        1 <= x.0 < g.next_raw(),
{
}

/// The hierarchy is a forest: every node lies below one of the roots.
pub proof fn lemma_node_under_root(g: &SceneGraph, x: NodeId)
    requires
        g.wf(),
        g.has(x),
    ensures
        exists|r: NodeId| g.root_ids().contains(r) && g.is_ancestor(r, x),
{
    g.lemma_root_above(x);
}

/// The hierarchy has no cycles: a node's parent is its ancestor and never
/// its descendant.
pub proof fn lemma_parent_not_below(g: &SceneGraph, x: NodeId)
    requires
        g.wf(),
        g.has(x),
        g.parent_of(x) is Some,
    ensures
        g.is_ancestor(g.parent_of(x)->0, x),
        !g.is_ancestor(x, g.parent_of(x)->0),
{
    assert(g.record_ok(x.0));
    let p = g.parent_of(x)->0;
    g.lemma_ancestor_self(p);
    g.lemma_ancestor_down(p, x);
    if g.is_ancestor(x, p) {
        g.lemma_ancestor_self(x);
    }
}

/// The nodes at or above `x` are `x` itself and the nodes at or above its
/// parent, and a node's parent is a node of the graph.
pub proof fn lemma_ancestors_of(g: &SceneGraph, x: NodeId)
    requires
        g.wf(),
        g.has(x),
    ensures
        g.is_ancestor(x, x),
        g.parent_of(x) matches Some(p) ==> g.has(p),
        forall|a: NodeId|
            #[trigger] g.is_ancestor(a, x) <==> (a == x || (g.parent_of(x) matches Some(p) && g.is_ancestor(a, p))),
{
    assert(g.record_ok(x.0));
    g.lemma_ancestor_self(x);
    assert forall|a: NodeId| #[trigger] g.is_ancestor(a, x) implies (a == x || (g.parent_of(x) matches Some(
        p,
    ) && g.is_ancestor(a, p))) by {
        if a != x {
            g.lemma_ancestor_up(a, x);
        }
    }
    assert forall|a: NodeId| (a == x || (g.parent_of(x) matches Some(p) && g.is_ancestor(a, p))) implies #[trigger] g.is_ancestor(
        a,
        x,
    ) by {
        if a != x {
            g.lemma_ancestor_down(a, x);
        }
    }
}

/// A freshly created graph has no nodes, no roots, nothing pending, nothing
/// stored, no metadata and no selection, hands out id 1 next, and enables every
/// layer for every editor tool.
pub proof fn lemma_empty_graph(g: &SceneGraph)
    requires
        g.is_empty_graph(),
    ensures
        g.next_raw() == 1,
        forall|id: NodeId| !(#[trigger] g.has(id)),
        g.root_ids().len() == 0,
        g.pending().len() == 0,
        g.stored() == 0,
        forall|id: NodeId| (#[trigger] g.metadata_of(id)) is None,
        g.selection_spec().selected_ids().len() == 0,
        g.selection_spec().hovered is None,
        g.selection_spec().active is None,
        g.policy().selectable.spec_bits() == all_layers(),
        g.policy().draggable.spec_bits() == all_layers(),
        g.policy().transformable.spec_bits() == all_layers(),
{
}

/// Each node sits in exactly one list: the root list holds, once each,
/// exactly the nodes without a parent, and the child list of a node holds,
/// once each, exactly the nodes whose parent it is.
pub proof fn lemma_forest_lists(g: &SceneGraph)
    requires
        g.wf(),
    ensures
        g.root_ids().no_duplicates(),
        forall|x: NodeId| #[trigger] g.root_ids().contains(x) <==> (g.has(x) && g.parent_of(x) is None),
        forall|p: NodeId| #[trigger] g.has(p) ==> g.children_of(p).no_duplicates(),
        forall|p: NodeId, x: NodeId|
            g.has(p) ==> (#[trigger] g.children_of(p).contains(x) <==> (g.has(x) && g.parent_of(x) == Some(p))),
{
    assert forall|x: NodeId| #[trigger] g.root_ids().contains(x) <==> (g.has(x) && g.parent_of(x) is None) by {
        if g.root_ids().contains(x) {
            let j = choose|j: int| 0 <= j < g.roots@.len() && g.roots@[j] == x;
            assert(g.live(g.roots@[j].0));
        }
        if g.has(x) && g.parent_of(x) is None {
            assert(g.record_ok(x.0));
            assert(NodeId(x.0) == x);
        }
    }
    assert forall|p: NodeId| #[trigger] g.has(p) implies g.children_of(p).no_duplicates() by {
        assert(g.record_ok(p.0));
    }
    assert forall|p: NodeId, x: NodeId|
        g.has(p) implies (#[trigger] g.children_of(p).contains(x) <==> (g.has(x) && g.parent_of(x) == Some(p))) by {
        assert(g.record_ok(p.0));
        if g.children_of(p).contains(x) {
            let j = choose|j: int| 0 <= j < g.rec(p.0).children@.len() && g.rec(p.0).children@[j] == x;
            assert(g.live(g.rec(p.0).children@[j].0));
            assert(NodeId(p.0) == p);
        }
        if g.has(x) && g.parent_of(x) == Some(p) {
            assert(g.record_ok(x.0));
            assert(NodeId(x.0) == x);
        }
    }
}

/// Editor permissions follow the metadata and the layer policy: a locked or
/// hidden node allows no tool; metadata that withholds a permission withholds
/// it; a visible node without metadata allows each tool whose layers it is on;
/// and with metadata that grants a permission and no lock, the permission
/// depends on visibility and layers alone.
pub proof fn lemma_permissions(g: &SceneGraph, id: NodeId)
    ensures
        !g.node(id).visible || !g.has(id) ==> !g.can_select(id) && !g.can_drag(id) && !g.can_transform(id),
        g.metadata_of(id) matches Some(m) && m.locked ==> !g.can_select(id) && !g.can_drag(id) && !g.can_transform(
            id,
        ),
        g.metadata_of(id) matches Some(m) && !m.selectable ==> !g.can_select(id),
        g.metadata_of(id) matches Some(m) && !m.draggable ==> !g.can_drag(id),
        g.metadata_of(id) matches Some(m) && !m.transformable ==> !g.can_transform(id),
        (g.metadata_of(id) is None || (g.metadata_of(id) matches Some(m) && !m.locked && m.selectable && m.draggable
            && m.transformable)) && g.has(id) && g.node(id).visible ==> {
            &&& g.can_select(id) == (g.policy().selectable.spec_bits() & g.node(id).layer != 0)
            &&& g.can_drag(id) == (g.policy().draggable.spec_bits() & g.node(id).layer != 0)
            &&& g.can_transform(id) == (g.policy().transformable.spec_bits() & g.node(id).layer != 0)
        },
{
}

/// A depth-first walk from `stack` yields the top of the stack first, and
/// right after a node with children it yields that node's first child.
pub proof fn lemma_dfs_trace_preorder(g: &SceneGraph, stack: Seq<NodeId>, fuel: nat, i: int)
    ensures
        fuel > 0 && stack.len() > 0 ==> g.dfs_trace(stack, fuel).len() > 0 && g.dfs_trace(stack, fuel)[0]
            == stack.last(),
        0 <= i && i + 1 < g.dfs_trace(stack, fuel).len() && g.children_of(g.dfs_trace(stack, fuel)[i]).len() > 0
            ==> g.dfs_trace(stack, fuel)[i + 1] == g.children_of(g.dfs_trace(stack, fuel)[i])[0],
    decreases fuel,
{
    if fuel > 0 && stack.len() > 0 {
        let x = stack.last();
        let next = stack.drop_last() + g.children_of(x).reverse();
        let rest = g.dfs_trace(next, (fuel - 1) as nat);
        assert(g.dfs_trace(stack, fuel) == seq![x] + rest);
        lemma_dfs_trace_preorder(g, next, (fuel - 1) as nat, i - 1);
        if i == 0 && 1 < g.dfs_trace(stack, fuel).len() && g.children_of(x).len() > 0 {
            assert(rest.len() > 0);
            assert(next.last() == g.children_of(x)[0]);
            assert(g.dfs_trace(stack, fuel)[1] == rest[0]);
        }
        if i > 0 && i + 1 < g.dfs_trace(stack, fuel).len() {
            assert(g.dfs_trace(stack, fuel)[i] == rest[i - 1]);
            assert(g.dfs_trace(stack, fuel)[i + 1] == rest[i]);
        }
    }
}

/// A breadth-first walk never drops or reorders what its queue already
/// holds: the queue it starts from is a prefix of what it yields. In
/// particular the breadth-first order starts with the roots, in order.
pub proof fn lemma_bfs_trace_keeps_queue(g: &SceneGraph, queue: Seq<NodeId>, index: nat, fuel: nat)
    ensures
        g.bfs_trace(queue, index, fuel).len() >= queue.len(),
        g.bfs_trace(queue, index, fuel).subrange(0, queue.len() as int) == queue,
    decreases fuel,
{
    if !(fuel == 0 || index >= queue.len()) {
        let q2 = queue + g.children_of(queue[index as int]);
        lemma_bfs_trace_keeps_queue(g, q2, index + 1, (fuel - 1) as nat);
        let t = g.bfs_trace(q2, index + 1, (fuel - 1) as nat);
        assert(t.subrange(0, queue.len() as int) =~= q2.subrange(0, queue.len() as int));
        assert(q2.subrange(0, queue.len() as int) =~= queue);
    } else {
        assert(queue.subrange(0, queue.len() as int) =~= queue);
    }
}

/// The selection is well formed and only refers to nodes of the graph.
pub proof fn lemma_selection_in_graph(g: &SceneGraph)
    requires
        g.wf(),
    ensures
        g.selection_spec().wf(),
        forall|x: NodeId| #[trigger] g.selection_spec().selected_set().contains(x) ==> g.has(x),
        g.selection_spec().hovered matches Some(h) ==> g.has(h),
        g.selection_spec().active matches Some(a) ==> g.has(a),
{
    assert forall|x: NodeId| #[trigger] g.selection_spec().selected_set().contains(x) implies g.has(x) by {
        let j = choose|j: int| 0 <= j < g.selection.selected@.len() && g.selection.selected@[j] == x;
        assert(g.live(g.selection.selected@[j].0));
    }
}

/// A node without children is its only descendant.
proof fn lemma_leaf_alone(g: &SceneGraph, id: NodeId, x: NodeId)
    requires
        g.wf(),
        g.has(id),
        g.children_of(id).len() == 0,
        g.is_ancestor(id, x),
    ensures
        x == id,
    decreases g.depth@[x.0],
{
    if x != id {
        g.lemma_ancestor_up(id, x);
        let p = g.parent_of(x)->0;
        if p == id {
            assert(g.record_ok(x.0));
            assert(g.children_of(id).contains(NodeId(x.0)));
        } else {
            lemma_leaf_alone(g, id, p);
        }
    }
}

/// Removing a root node right after adding it gives back the nodes and the
/// root list the graph had before.
pub proof fn lemma_add_then_remove(g0: &SceneGraph, g1: &SceneGraph, g2: &SceneGraph, id: NodeId, node: SceneNode)
    requires
        g0.wf(),
        g1.wf(),
        g1.added_from(g0, id, node, None),
        g1.root_ids() == g0.root_ids().push(id),
        g2.removed_from(g1, id),
    ensures
        forall|x: NodeId| #[trigger] g2.has(x) == g0.has(x),
        g2.root_ids() == g0.root_ids(),
{
    assert(g1.has(id));
    assert forall|x: NodeId| #[trigger] g2.has(x) == g0.has(x) by {
        if g1.is_ancestor(id, x) {
            lemma_leaf_alone(g1, id, x);
        }
        if g0.has(x) {
            assert(x.0 < id.0);
        }
    }
    assert(!g0.root_ids().contains(id)) by {
        if g0.root_ids().contains(id) {
            let j = choose|j: int| 0 <= j < g0.roots@.len() && g0.roots@[j] == id;
            assert(g0.live(g0.roots@[j].0));
        }
    }
    let s = g0.root_ids().push(id);
    s.index_of_first_ensures(id);
    let i = s.index_of_first(id)->0;
    if i < g0.root_ids().len() {
        assert(g0.root_ids()[i] == id);
    }
    assert(s.remove_value(id) =~= g0.root_ids());
}

/// Marking a clean node's subtree stale and then updating refreshes that
/// whole subtree.
pub proof fn lemma_marked_then_updated(g0: &SceneGraph, g1: &SceneGraph, g2: &SceneGraph, id: NodeId)
    requires
        g0.wf(),
        g1.wf(),
        g0.has(id),
        !g0.is_dirty(id),
        g1.marked_from(g0, id),
        g2.updated_from(g1),
    ensures
        forall|x: NodeId| g0.is_ancestor(id, x) ==> !#[trigger] g2.is_dirty(x),
{
    assert forall|x: NodeId| g0.is_ancestor(id, x) implies !#[trigger] g2.is_dirty(x) by {
        assert(g1.is_ancestor(id, x) == g0.is_ancestor(id, x));
        assert(g1.is_ancestor(id, id) == g0.is_ancestor(id, id));
        g0.lemma_ancestor_self(id);
        assert(g0.has(x));
        assert(g1.has(x));
        assert(g1.is_dirty(id) == (g0.is_dirty(id) || (!g0.is_dirty(id) && g0.is_ancestor(id, id))));
        assert(g1.pending() == g0.pending().push(id));
        lemma_push_contains(g0.pending(), id);
        assert(g1.pending().contains(id));
        assert(g1.refreshed_by(g1.pending(), x));
    }
}

impl SceneGraph {
    /// Takes `id` out of its parent's child list, or out of the root list.
    fn unlink(&mut self, id: NodeId)
        requires
            old(self).wf(),
            old(self).has(id),
        ensures
            final(self).next_id == old(self).next_id,
            final(self).id_to_key == old(self).id_to_key,
            final(self).dirty_roots == old(self).dirty_roots,
            final(self).editor_metadata == old(self).editor_metadata,
            final(self).selection == old(self).selection,
            final(self).layer_policy == old(self).layer_policy,
            final(self).depth == old(self).depth,
            final(self).slots().dom() == old(self).slots().dom(),
            match old(self).rec(id.0).parent {
                Some(p) => {
                    &&& final(self).roots == old(self).roots
                    &&& forall|key: DefaultKey|
                        key != old(self).key_of(p.0) ==> #[trigger] final(self).slots()[key]
                            == old(self).slots()[key]
                    &&& final(self).rec(p.0).id == old(self).rec(p.0).id
                    &&& final(self).rec(p.0).node == old(self).rec(p.0).node
                    &&& final(self).rec(p.0).parent == old(self).rec(p.0).parent
                    &&& final(self).rec(p.0).dirty == old(self).rec(p.0).dirty
                    &&& final(self).rec(p.0).children@ == old(self).rec(p.0).children@.remove_value(id)
                },
                None => {
                    &&& final(self).slots() == old(self).slots()
                    &&& final(self).roots@ == old(self).roots@.remove_value(id)
                },
            },
    {
        proof {
            assert(self.record_ok(id.0));
        }
        match self.parent(id) {
            Some(p) => {
                match self.key(p) {
                    Some(pk) => {
                        proof {
                            assert(self.record_ok(p.0));
                        }
                        let record = slots_get_mut(&mut self.nodes, pk);
                        remove_id(&mut record.children, id);
                    },
                    None => {},
                }
            },
            None => {
                remove_id(&mut self.roots, id);
            },
        }
    }

    /// Drops the records of the distinct nodes `removed`: their slots, their
    /// id entries and their metadata.
    fn drop_records(&mut self, removed: &Vec<NodeId>)
        requires
            removed@.no_duplicates(),
            forall|j: int| 0 <= j < removed@.len() ==> old(self).live((#[trigger] removed@[j]).0),
            forall|x: u64|
                #[trigger] old(self).live(x) ==> old(self).slots().contains_key(old(self).key_of(x))
                    && old(self).rec(x).id == NodeId(x),
            old(self).id_to_key@.len() == old(self).next_id,
            old(self).next_id <= usize::MAX,
        ensures
            final(self).next_id == old(self).next_id,
            final(self).id_to_key@.len() == old(self).id_to_key@.len(),
            forall|i: int|
                0 <= i < final(self).id_to_key@.len() ==> #[trigger] final(self).id_to_key@[i] == if removed@.contains(
                    NodeId(i as u64),
                ) {
                    None
                } else {
                    old(self).id_to_key@[i]
                },
            forall|key: DefaultKey|
                #[trigger] final(self).slots().contains_key(key) <==> (old(self).slots().contains_key(key)
                    && forall|t: int| 0 <= t < removed@.len() ==> key != old(self).key_of(#[trigger] removed@[t].0)),
            forall|key: DefaultKey|
                final(self).slots().contains_key(key) ==> #[trigger] final(self).slots()[key] == old(self).slots()[key],
            final(self).editor_metadata@.len() == old(self).editor_metadata@.len(),
            forall|i: int|
                0 <= i < final(self).editor_metadata@.len() ==> #[trigger] final(self).editor_metadata@[i]
                    == if removed@.contains(NodeId(i as u64)) {
                    None
                } else {
                    old(self).editor_metadata@[i]
                },
            final(self).roots == old(self).roots,
            final(self).dirty_roots == old(self).dirty_roots,
            final(self).selection == old(self).selection,
            final(self).layer_policy == old(self).layer_policy,
            final(self).depth == old(self).depth,
    {
        let ghost g1 = *self;
        let ghost r = removed@;
        let mut k: usize = 0;
        while k < removed.len()
            invariant
                r == removed@,
                r.no_duplicates(),
                forall|j: int| 0 <= j < r.len() ==> g1.live((#[trigger] r[j]).0),
                forall|x: u64|
                    #[trigger] g1.live(x) ==> g1.slots().contains_key(g1.key_of(x)) && g1.rec(x).id == NodeId(x),
                g1.id_to_key@.len() == g1.next_id,
                g1.next_id <= usize::MAX,
                k <= r.len(),
                self.next_id == g1.next_id,
                self.id_to_key@.len() == g1.id_to_key@.len(),
                forall|i: int|
                    0 <= i < self.id_to_key@.len() ==> #[trigger] self.id_to_key@[i] == if r.take(k as int).contains(
                        NodeId(i as u64),
                    ) {
                        None
                    } else {
                        g1.id_to_key@[i]
                    },
                forall|key: DefaultKey|
                    #[trigger] self.slots().contains_key(key) <==> (g1.slots().contains_key(key) && forall|t: int|
                        0 <= t < k ==> key != g1.key_of(#[trigger] r[t].0)),
                forall|key: DefaultKey|
                    self.slots().contains_key(key) ==> #[trigger] self.slots()[key] == g1.slots()[key],
                self.editor_metadata@.len() == g1.editor_metadata@.len(),
                forall|i: int|
                    0 <= i < self.editor_metadata@.len() ==> #[trigger] self.editor_metadata@[i]
                        == if r.take(k as int).contains(NodeId(i as u64)) {
                        None
                    } else {
                        g1.editor_metadata@[i]
                    },
                self.roots == g1.roots,
                self.dirty_roots == g1.dirty_roots,
                self.selection == g1.selection,
                self.layer_policy == g1.layer_policy,
                self.depth == g1.depth,
            decreases r.len() - k,
        {
            let x = removed[k];
            let index = x.0 as usize;
            proof {
                assert(g1.live(x.0));
                lemma_push_contains(r.take(k as int), x);
                assert(r.take(k + 1) =~= r.take(k as int).push(x));
                assert(!r.take(k as int).contains(x)) by {
                    if r.take(k as int).contains(x) {
                        let t = choose|t: int| 0 <= t < k && r.take(k as int)[t] == x;
                        assert(r[t] == r[k as int]);
                    }
                }
                assert(self.id_to_key@[index as int] == g1.id_to_key@[index as int]);
            }
            match self.id_to_key[index] {
                Some(key) => {
                    proof {
                        assert(key == g1.key_of(x.0));
                        assert forall|t: int| 0 <= t < k implies key != g1.key_of(#[trigger] r[t].0) by {
                            assert(g1.live(r[t].0));
                            if key == g1.key_of(r[t].0) {
                                assert(g1.rec(r[t].0).id == NodeId(r[t].0));
                                assert(r[t] == NodeId(r[t].0));
                                assert(r[t] == x);
                            }
                        }
                    }
                    let ghost before = self.slots();
                    let _ = slots_remove(&mut self.nodes, key);
                    proof {
                        assert forall|key2: DefaultKey|
                            #[trigger] self.slots().contains_key(key2) <==> (g1.slots().contains_key(key2)
                                && forall|t: int| 0 <= t < k + 1 ==> key2 != g1.key_of(#[trigger] r[t].0)) by {
                            if key2 == key {
                                assert(key2 == g1.key_of(r[k as int].0));
                            } else {
                                assert(self.slots().contains_key(key2) == before.contains_key(key2));
                                if before.contains_key(key2) {
                                    assert forall|t: int| 0 <= t < k + 1 implies key2 != g1.key_of(#[trigger] r[t].0) by {
                                        if t == k {
                                            assert(r[t] == x);
                                        }
                                    }
                                }
                            }
                        }
                        assert forall|key2: DefaultKey| self.slots().contains_key(key2) implies #[trigger] self.slots()[key2]
                            == g1.slots()[key2] by {
                            assert(before.contains_key(key2));
                        }
                    }
                },
                None => {
                    assert(false);
                },
            }
            self.id_to_key.set(index, None);
            if index < self.editor_metadata.len() {
                self.editor_metadata.set(index, None);
            }
            proof {
                assert forall|i: int| 0 <= i < self.id_to_key@.len() implies #[trigger] self.id_to_key@[i] == if r.take(
                    k + 1,
                ).contains(NodeId(i as u64)) {
                    None
                } else {
                    g1.id_to_key@[i]
                } by {
                    if i == index {
                        assert(NodeId(i as u64) == x);
                    } else {
                        assert(NodeId(i as u64) != x);
                    }
                }
                assert forall|i: int| 0 <= i < self.editor_metadata@.len() implies #[trigger] self.editor_metadata@[i]
                    == if r.take(k + 1).contains(NodeId(i as u64)) {
                    None
                } else {
                    g1.editor_metadata@[i]
                } by {
                    if i == index {
                        assert(NodeId(i as u64) == x);
                    } else {
                        assert(NodeId(i as u64) != x);
                    }
                }
            }
            k = k + 1;
        }
        proof {
            assert(r.take(r.len() as int) =~= r);
        }
    }

    /// The ids of `v` that name nodes of this graph, in order.
    fn retain_live(&self, v: &Vec<NodeId>) -> (out: Vec<NodeId>)
        requires
            self.index_ok(),
        ensures
            out@ == v@.filter(|x: NodeId| self.has(x)),
    {
        let mut out: Vec<NodeId> = Vec::new();
        let mut i: usize = 0;
        while i < v.len()
            invariant
                self.index_ok(),
                i <= v@.len(),
                out@ == v@.take(i as int).filter(|x: NodeId| self.has(x)),
            decreases v@.len() - i,
        {
            let x = v[i];
            proof {
                reveal(Seq::filter);
                assert(v@.take(i + 1).drop_last() =~= v@.take(i as int));
                assert(v@.take(i + 1).last() == x);
            }
            if self.key(x).is_some() {
                out.push(x);
            }
            i = i + 1;
        }
        assert(v@.take(v@.len() as int) =~= v@);
        out
    }

    /// Walks depth first from the stack `init` (top last): pops a node,
    /// yields it, and pushes its children last to first.
    fn walk(&self, init: Vec<NodeId>, Ghost(d): Ghost<nat>) -> (out: Vec<NodeId>)
        requires
            self.wf(),
            self.walk_start(init@, d),
        ensures
            out@ == self.dfs_order(init@),
            out@.no_duplicates(),
            forall|x: NodeId|
                #[trigger] out@.contains(x) <==> exists|s: NodeId| init@.contains(s) && self.is_ancestor(s, x),
            self.parents_first(init@, out@),
    {
        let ghost init_seq = init@;
        let mut stack = init;
        let mut out: Vec<NodeId> = Vec::new();
        proof {
            self.lemma_walk_init(init_seq, d);
            assert(out@ + self.dfs_trace(stack@, (self.next_id - out@.len()) as nat) =~= self.dfs_order(init_seq));
        }
        while stack.len() > 0
            invariant
                self.wf(),
                self.walk_start(init_seq, d),
                self.walk_inv(init_seq, d, stack@, out@),
                self.parents_first(init_seq, out@),
                out@.len() < self.next_id,
                out@ + self.dfs_trace(stack@, (self.next_id - out@.len()) as nat) == self.dfs_order(init_seq),
            decreases self.next_id - out@.len(),
        {
            let ghost s0 = stack@;
            let ghost o0 = out@;
            let x = stack.pop().unwrap();
            proof {
                assert(x == s0.last());
                self.lemma_walk_step(init_seq, d, s0, o0);
                assert(s0.contains(x));
                assert(self.live(x.0));
            }
            out.push(x);
            let children = match self.children(x) {
                Some(c) => c,
                None => &[],
            };
            push_reversed(&mut stack, children);
            proof {
                assert(stack@ == s0.drop_last() + self.children_of(x).reverse());
                let fuel = (self.next_id - o0.len()) as nat;
                assert(self.dfs_trace(s0, fuel) == seq![x] + self.dfs_trace(stack@, (fuel - 1) as nat));
                assert(o0 + (seq![x] + self.dfs_trace(stack@, (fuel - 1) as nat)) =~= out@ + self.dfs_trace(
                    stack@,
                    (fuel - 1) as nat,
                ));
                assert forall|j: int| 0 <= j < out@.len() implies 1 <= (#[trigger] out@[j]).0 < self.next_id by {
                    assert(out@.contains(out@[j]));
                }
                lemma_distinct_ids_bounded(out@, self.next_id);
                assert forall|j: int| 0 <= j < out@.len() implies init_seq.contains(#[trigger] out@[j]) || (
                self.parent_of(out@[j]) is Some && exists|k: int|
                    0 <= k < j && out@[k] == self.parent_of(out@[j])->0) by {
                    if j < o0.len() {
                        assert(out@[j] == o0[j]);
                        if !init_seq.contains(o0[j]) {
                            let k = choose|k: int| 0 <= k < j && o0[k] == self.parent_of(o0[j])->0;
                            assert(out@[k] == o0[k]);
                        }
                    } else {
                        assert(out@[j] == x);
                        if !init_seq.contains(x) {
                            assert(o0.contains(self.parent_of(x)->0));
                            let k = choose|k: int| 0 <= k < o0.len() && o0[k] == self.parent_of(x)->0;
                            assert(out@[k] == o0[k]);
                        }
                    }
                }
            }
        }
        proof {
            assert(stack@ =~= Seq::<NodeId>::empty());
            assert(self.dfs_trace(stack@, (self.next_id - out@.len()) as nat) =~= Seq::<NodeId>::empty());
            assert(out@ =~= self.dfs_order(init_seq));
            assert forall|x: NodeId|
                #[trigger] out@.contains(x) <==> exists|s: NodeId| init_seq.contains(s) && self.is_ancestor(s, x) by {
                if exists|s: NodeId| init_seq.contains(s) && self.is_ancestor(s, x) {
                    let s = choose|s: NodeId| init_seq.contains(s) && self.is_ancestor(s, x);
                    self.lemma_walk_done(init_seq, d, out@, s, x);
                }
            }
        }
        out
    }
}

impl SceneGraph {
    /// Creates an empty graph.
    pub fn new() -> (g: SceneGraph)
        ensures
            g.wf(),
            g.is_empty_graph(),
            g.next_raw() == 1,
            g.stored() == 0,
            forall|id: NodeId| !(#[trigger] g.has(id)),
    {
        SceneGraph::with_capacity(0)
    }

    /// Whether this is a freshly created graph: no nodes, ids start at 1,
    /// nothing selected and every layer enabled.
    pub closed spec fn is_empty_graph(&self) -> bool {
        &&& self.next_id == 1
        &&& forall|id: NodeId| !(#[trigger] self.has(id))
        &&& self.roots@.len() == 0
        &&& self.dirty_roots@.len() == 0
        &&& self.slots().dom().len() == 0
        &&& forall|id: NodeId| (#[trigger] self.metadata_of(id)) is None
        &&& self.selection.selected@.len() == 0
        &&& self.selection.hovered is None
        &&& self.selection.active is None
        &&& self.layer_policy.selectable.spec_bits() == all_layers()
        &&& self.layer_policy.draggable.spec_bits() == all_layers()
        &&& self.layer_policy.transformable.spec_bits() == all_layers()
    }

    /// Creates an empty graph with room for `capacity` nodes. The slot map
    /// reserves one more slot than asked for, so `usize::MAX` is left out.
    pub fn with_capacity(capacity: usize) -> (g: SceneGraph)
        requires
            capacity < usize::MAX,
        ensures
            g.wf(),
            g.is_empty_graph(),
            g.next_raw() == 1,
            g.stored() == 0,
            forall|id: NodeId| !(#[trigger] g.has(id)),
    {
        let mut id_to_key: Vec<Option<DefaultKey>> = Vec::with_capacity(capacity.saturating_add(1));
        id_to_key.push(None);
        let g = SceneGraph {
            nodes: slots_with_capacity(capacity),
            roots: Vec::new(),
            id_to_key,
            next_id: 1,
            dirty_roots: Vec::new(),
            editor_metadata: Vec::with_capacity(capacity.saturating_add(1)),
            selection: SelectionState::default(),
            layer_policy: LayerPolicy::default(),
            depth: Ghost(Map::empty()),
        };
        proof {
            assert(g.slots().dom() =~= Set::<DefaultKey>::empty());
        }
        g
    }

    /// Whether the editor metadata, selection and layer policy agree.
    pub open spec fn same_editor_state(&self, other: &SceneGraph) -> bool {
        &&& forall|x: NodeId| #[trigger] self.metadata_of(x) == other.metadata_of(x)
        &&& self.selection_spec() == other.selection_spec()
        &&& self.policy() == other.policy()
    }

    /// Whether one more node fits: the next id must be representable as an
    /// index and the slot map must have room for one more record.
    pub open spec fn can_add(&self) -> bool {
        &&& self.next_raw() < usize::MAX
        &&& self.stored() + 2 < u32::MAX
    }

    /// Whether `self` is `old` with the node `node` added as `id` under
    /// `parent`, everything else unchanged except the links of `parent` (or
    /// the root list), which the caller states.
    pub open spec fn added_from(
        &self,
        old: &SceneGraph,
        id: NodeId,
        node: SceneNode,
        parent: Option<NodeId>,
    ) -> bool {
        &&& id.0 == old.next_raw()
        &&& self.next_raw() == old.next_raw() + 1
        &&& self.stored() == old.stored() + 1
        &&& forall|x: NodeId| #[trigger] self.has(x) <==> (old.has(x) || x == id)
        &&& self.node(id) == node
        &&& self.parent_of(id) == parent
        &&& self.children_of(id) == Seq::<NodeId>::empty()
        &&& self.is_dirty(id)
        &&& self.depth_of(id) == match parent {
            Some(p) => old.depth_of(p) + 1,
            None => 0,
        }
        &&& forall|x: NodeId|
            old.has(x) ==> {
                &&& self.node(x) == old.node(x)
                &&& self.parent_of(x) == old.parent_of(x)
                &&& self.is_dirty(x) == old.is_dirty(x)
                &&& (parent != Some(x) ==> self.children_of(x) == old.children_of(x))
                &&& self.depth_of(x) == old.depth_of(x)
            }
        &&& self.pending() == old.pending().push(id)
        &&& self.same_editor_state(old)
    }

    /// Pads the metadata table with `None` so that `index` is in range.
    fn reserve_metadata(&mut self, index: usize)
        requires
            index < usize::MAX,
        ensures
            final(self).editor_metadata@.len() == if old(self).editor_metadata@.len() <= index {
                index + 1
            } else {
                old(self).editor_metadata@.len() as int
            },
            forall|i: int|
                0 <= i < final(self).editor_metadata@.len() ==> #[trigger] final(self).editor_metadata@[i]
                    == if i < old(self).editor_metadata@.len() {
                    old(self).editor_metadata@[i]
                } else {
                    None
                },
            final(self).nodes == old(self).nodes,
            final(self).roots == old(self).roots,
            final(self).id_to_key == old(self).id_to_key,
            final(self).next_id == old(self).next_id,
            final(self).dirty_roots == old(self).dirty_roots,
            final(self).selection == old(self).selection,
            final(self).layer_policy == old(self).layer_policy,
            final(self).depth == old(self).depth,
    {
        while self.editor_metadata.len() <= index
            invariant
                index < usize::MAX,
                old(self).editor_metadata@.len() <= self.editor_metadata@.len(),
                old(self).editor_metadata@.len() <= index ==> self.editor_metadata@.len() <= index + 1,
                old(self).editor_metadata@.len() > index ==> self.editor_metadata@.len() == old(self).editor_metadata@.len(),
                forall|i: int|
                    0 <= i < self.editor_metadata@.len() ==> #[trigger] self.editor_metadata@[i]
                        == if i < old(self).editor_metadata@.len() {
                        old(self).editor_metadata@[i]
                    } else {
                        None
                    },
                self.nodes == old(self).nodes,
                self.roots == old(self).roots,
                self.id_to_key == old(self).id_to_key,
                self.next_id == old(self).next_id,
                self.dirty_roots == old(self).dirty_roots,
                self.selection == old(self).selection,
                self.layer_policy == old(self).layer_policy,
                self.depth == old(self).depth,
            decreases index + 1 - self.editor_metadata@.len(),
        {
            self.editor_metadata.push(None);
        }
    }

    /// Stores a new record for `node` under `parent` and assigns it the next id.
    fn insert_record(&mut self, node: SceneNode, parent: Option<NodeId>) -> (id: NodeId)
        requires
            old(self).wf(),
            old(self).can_add(),
            match parent {
                Some(p) => old(self).has(p),
                None => true,
            },
        ensures
            id.0 == old(self).next_id,
            final(self).live(id.0),
            final(self).slots().contains_key(final(self).key_of(id.0)),
            !old(self).slots().contains_key(final(self).key_of(id.0)),
            final(self).rec(id.0).id == id,
            final(self).rec(id.0).node == node,
            final(self).rec(id.0).parent == parent,
            final(self).rec(id.0).dirty,
            final(self).rec(id.0).children@.len() == 0,
            final(self).next_id == old(self).next_id + 1,
            final(self).id_to_key@.len() == final(self).next_id,
            final(self).id_to_key@[0] is None,
            final(self).slots().dom().finite(),
            final(self).slots() == old(self).slots().insert(final(self).key_of(id.0), final(self).rec(id.0)),
            forall|x: u64|
                old(self).live(x) ==> #[trigger] final(self).key_of(x) == old(self).key_of(x),
            final(self).slots().dom().len() == old(self).slots().dom().len() + 1,
            forall|x: u64|
                #[trigger] final(self).live(x) <==> (old(self).live(x) || x == id.0),
            forall|x: u64|
                old(self).live(x) ==> #[trigger] final(self).rec(x) == old(self).rec(x),
            final(self).depth@ == old(self).depth@.insert(
                id.0,
                match parent {
                    Some(p) => old(self).depth@[p.0] + 1,
                    None => 0,
                },
            ),
            final(self).roots == old(self).roots,
            final(self).dirty_roots == old(self).dirty_roots,
            final(self).selection == old(self).selection,
            final(self).layer_policy == old(self).layer_policy,
            final(self).editor_metadata@.len() == old(self).next_id + 1,
            forall|i: int|
                0 <= i < final(self).editor_metadata@.len() ==> #[trigger] final(self).editor_metadata@[i]
                    == if i < old(self).editor_metadata@.len() {
                    old(self).editor_metadata@[i]
                } else {
                    None
                },
    {
        let id = NodeId::new(self.next_id);
        let ghost g0 = *self;
        let record = NodeRecord { id, node, parent, children: Vec::new(), dirty: true };
        let key = slots_insert(&mut self.nodes, record);
        self.next_id = self.next_id + 1;
        self.id_to_key.push(Some(key));
        self.reserve_metadata(id.0 as usize);
        proof {
            let d: nat = match parent {
                Some(p) => g0.depth@[p.0] + 1,
                None => 0,
            };
            self.depth = Ghost(g0.depth@.insert(id.0, d));
            assert forall|x: u64| #[trigger] self.live(x) <==> (g0.live(x) || x == id.0) by {
                if x < g0.next_id {
                    assert(self.id_to_key@[x as int] == g0.id_to_key@[x as int]);
                }
            }
            assert forall|x: u64| g0.live(x) implies #[trigger] self.rec(x) == g0.rec(x) by {
                assert(g0.record_ok(x));
                assert(self.id_to_key@[x as int] == g0.id_to_key@[x as int]);
            }
            assert(self.key_of(id.0) == key);
        }
        id
    }

    /// Adds a root node and returns its id.
    pub fn add(&mut self, node: SceneNode) -> (id: NodeId)
        requires
            old(self).wf(),
            old(self).can_add(),
        ensures
            final(self).wf(),
            final(self).added_from(old(self), id, node, None),
            final(self).root_ids() == old(self).root_ids().push(id),
    {
        let ghost g0 = *self;
        let id = self.insert_record(node, None);
        let ghost g1 = *self;
        self.roots.push(id);
        self.dirty_roots.push(id);
        proof {
            let n = id.0;
            assert forall|x: u64| #[trigger] self.rec(x) == g1.rec(x) by {}
            assert forall|x: u64| g0.live(x) implies #[trigger] self.rec(x) == g0.rec(x) by {
                assert(g1.rec(x) == g0.rec(x));
            }
            assert forall|x: u64| g0.live(x) implies #[trigger] self.live(x) by {
                assert(g1.live(x));
            }
            assert forall|i: u64| #[trigger] self.live(i) implies self.record_ok(i) by {
                assert(g1.live(i));
                if i != n {
                    assert(g0.live(i));
                    assert(g0.record_ok(i));
                    assert(self.rec(i) == g0.rec(i));
                    let r = self.rec(i);
                    if let Some(p) = r.parent {
                        assert(self.rec(p.0) == g0.rec(p.0));
                    } else {
                        assert(g0.roots@.contains(NodeId(i)));
                        let k = choose|k: int| 0 <= k < g0.roots@.len() && g0.roots@[k] == NodeId(i);
                        assert(self.roots@[k] == NodeId(i));
                    }
                    assert forall|j: int| 0 <= j < r.children@.len() implies {
                        &&& self.live((#[trigger] r.children@[j]).0)
                        &&& self.rec(r.children@[j].0).parent == Some(NodeId(i))
                        &&& (r.dirty ==> self.rec(r.children@[j].0).dirty)
                    } by {
                        assert(g0.live(r.children@[j].0));
                        assert(self.rec(r.children@[j].0) == g0.rec(r.children@[j].0));
                    }
                } else {
                    assert(self.roots@[self.roots@.len() - 1] == id);
                }
            }
            assert forall|j: int| 0 <= j < self.roots@.len() implies {
                &&& self.live((#[trigger] self.roots@[j]).0)
                &&& self.rec(self.roots@[j].0).parent is None
            } by {
                if j < g0.roots@.len() {
                    assert(g0.roots@[j] == self.roots@[j]);
                    assert(g0.live(self.roots@[j].0));
                }
            }
            assert(self.roots@.no_duplicates()) by {
                assert forall|a: int, b: int| 0 <= a < b < self.roots@.len() implies self.roots@[a] != self.roots@[b] by {
                    if b == self.roots@.len() - 1 {
                        assert(g0.live(self.roots@[a].0));
                    }
                }
            }
            assert forall|j: int| 0 <= j < self.dirty_roots@.len() implies self.live((#[trigger] self.dirty_roots@[j]).0) by {
                if j < g0.dirty_roots@.len() {
                    assert(g0.dirty_roots@[j] == self.dirty_roots@[j]);
                }
            }
            assert forall|i: int|
                0 <= i < self.editor_metadata@.len() && (#[trigger] self.editor_metadata@[i]) is Some implies self.live(i as u64) by {
                assert(g0.live(i as u64));
            }
            assert forall|j: int| 0 <= j < self.selection.selected@.len() implies self.live((#[trigger] self.selection.selected@[j]).0) by {
                assert(g0.live(self.selection.selected@[j].0));
            }
            assert(self.selection.hovered matches Some(h) ==> g0.live(h.0));
            assert(self.selection.active matches Some(a) ==> g0.live(a.0));
            assert(self.stored() == g0.stored() + 1) by {
                assert(!g0.slots().dom().contains(self.key_of(n)));
            }
            assert forall|x: NodeId| #[trigger] self.metadata_of(x) == g0.metadata_of(x) by {}
            assert forall|x: NodeId| #[trigger] self.has(x) <==> (g0.has(x) || x == id) by {
                assert(g1.live(x.0) == self.live(x.0));
            }
            assert(self.children_of(id) =~= Seq::<NodeId>::empty());
            assert forall|x: NodeId| g0.has(x) implies {
                &&& self.node(x) == g0.node(x)
                &&& self.parent_of(x) == g0.parent_of(x)
                &&& self.is_dirty(x) == g0.is_dirty(x)
                &&& self.children_of(x) == g0.children_of(x)
                &&& self.depth_of(x) == g0.depth_of(x)
            } by {
                assert(self.rec(x.0) == g0.rec(x.0));
            }
            assert forall|x: NodeId|
                g0.has(x) implies #[trigger] self.parent_of(x) == g0.parent_of(x) && self.is_dirty(x) == g0.is_dirty(x) by {
                assert(self.rec(x.0) == g0.rec(x.0));
            }
            assert(self.pending() == g0.pending().push(id));
            self.lemma_dirt_pending_added(&g0, id);
        }
        id
    }

    /// Adds a child node under `parent`. Fails with `InvalidId`, changing
    /// nothing, when `parent` names no node.
    pub fn add_child(&mut self, parent: NodeId, node: SceneNode) -> (r: Result<NodeId, ValidationError>)
        requires
            old(self).wf(),
            old(self).has(parent) ==> old(self).can_add(),
        ensures
            final(self).wf(),
            match r {
                Ok(id) => {
                    &&& old(self).has(parent)
                    &&& final(self).added_from(old(self), id, node, Some(parent))
                    &&& final(self).children_of(parent) == old(self).children_of(parent).push(id)
                    &&& final(self).root_ids() == old(self).root_ids()
                },
                Err(e) => !old(self).has(parent) && e == ValidationError::InvalidId && *final(self)
                    == *old(self),
            },
    {
        let parent_key = match self.key_or_err(parent) {
            Ok(k) => k,
            Err(e) => return Err(e),
        };
        let ghost g0 = *self;
        proof {
            assert(g0.record_ok(parent.0));
        }
        let id = self.insert_record(node, Some(parent));
        let ghost g1 = *self;
        proof {
            assert(g1.key_of(parent.0) == parent_key);
            assert(g1.slots().contains_key(parent_key));
            assert(g1.rec(parent.0) == g0.rec(parent.0));
        }
        let record = slots_get_mut(&mut self.nodes, parent_key);
        record.children.push(id);
        let ghost g2 = *self;
        self.dirty_roots.push(id);
        proof {
            let n = id.0;
            let p = parent.0;
            assert forall|x: u64| #[trigger] self.live(x) == g1.live(x) by {}
            assert forall|x: u64| #[trigger] self.key_of(x) == g1.key_of(x) by {}
            assert forall|x: u64| g0.live(x) implies #[trigger] self.live(x) by {
                assert(g1.live(x));
            }
            // Keys of distinct live nodes differ.
            assert forall|x: u64| g0.live(x) && x != p implies g0.key_of(x) != parent_key by {
                assert(g0.record_ok(x));
            }
            assert forall|x: u64| g0.live(x) && x != p implies #[trigger] self.rec(x) == g0.rec(x) by {
                assert(g1.rec(x) == g0.rec(x));
                assert(g1.key_of(x) == g0.key_of(x));
            }
            assert(self.rec(n) == g1.rec(n)) by {
                assert(g1.key_of(n) != parent_key);
            }
            let rp = self.rec(p);
            assert(rp.children@ == g0.rec(p).children@.push(id));
            assert(rp.node == g0.rec(p).node && rp.parent == g0.rec(p).parent && rp.dirty == g0.rec(p).dirty
                && rp.id == g0.rec(p).id);
            assert forall|i: u64| #[trigger] self.live(i) implies self.record_ok(i) by {
                assert(g1.live(i));
                if i == n {
                    assert(rp.children@[rp.children@.len() - 1] == id);
                } else {
                    assert(g0.live(i));
                    assert(g0.record_ok(i));
                    let r = self.rec(i);
                    let r0 = g0.rec(i);
                    if let Some(q) = r0.parent {
                        if q.0 == p {
                            let k = choose|k: int| 0 <= k < g0.rec(p).children@.len() && g0.rec(p).children@[k] == NodeId(i);
                            assert(rp.children@[k] == NodeId(i));
                        } else {
                            assert(self.rec(q.0) == g0.rec(q.0));
                        }
                    }
                    if i == p {
                        assert(r.children@.no_duplicates()) by {
                            assert forall|a: int, b: int| 0 <= a < b < r.children@.len() implies r.children@[a] != r.children@[b] by {
                                if b == r.children@.len() - 1 {
                                    assert(g0.live(r0.children@[a].0));
                                }
                            }
                        }
                        assert forall|j: int| 0 <= j < r.children@.len() implies {
                            &&& self.live((#[trigger] r.children@[j]).0)
                            &&& self.rec(r.children@[j].0).parent == Some(NodeId(i))
                            &&& (r.dirty ==> self.rec(r.children@[j].0).dirty)
                        } by {
                            if j < r0.children@.len() {
                                let c = r0.children@[j].0;
                                assert(r.children@[j] == r0.children@[j]);
                                assert(g0.live(c));
                                assert(g0.record_ok(c));
                                assert(c != p);
                                assert(self.rec(c) == g0.rec(c));
                            }
                        }
                    } else {
                        assert(r == r0);
                        assert forall|j: int| 0 <= j < r.children@.len() implies {
                            &&& self.live((#[trigger] r.children@[j]).0)
                            &&& self.rec(r.children@[j].0).parent == Some(NodeId(i))
                            &&& (r.dirty ==> self.rec(r.children@[j].0).dirty)
                        } by {
                            let c = r0.children@[j].0;
                            assert(g0.live(c));
                            assert(g0.record_ok(c));
                            if c == p {
                                assert(g0.depth@[c] == g0.depth@[i] + 1);
                            }
                            assert(self.rec(c) == g0.rec(c) || c == p);
                        }
                    }
                }
            }
            assert forall|j: int| 0 <= j < self.roots@.len() implies {
                &&& self.live((#[trigger] self.roots@[j]).0)
                &&& self.rec(self.roots@[j].0).parent is None
            } by {
                assert(g0.live(self.roots@[j].0));
                assert(g0.rec(self.roots@[j].0).parent is None);
                assert(self.roots@[j].0 != p || g0.rec(p).parent is None);
            }
            assert forall|j: int| 0 <= j < self.dirty_roots@.len() implies self.live((#[trigger] self.dirty_roots@[j]).0) by {
                if j < g0.dirty_roots@.len() {
                    assert(g0.dirty_roots@[j] == self.dirty_roots@[j]);
                }
            }
            assert forall|i: int|
                0 <= i < self.editor_metadata@.len() && (#[trigger] self.editor_metadata@[i]) is Some implies self.live(i as u64) by {
                assert(g0.live(i as u64));
            }
            assert forall|j: int| 0 <= j < self.selection.selected@.len() implies self.live((#[trigger] self.selection.selected@[j]).0) by {
                assert(g0.live(self.selection.selected@[j].0));
            }
            assert(self.selection.hovered matches Some(h) ==> g0.live(h.0));
            assert(self.selection.active matches Some(a) ==> g0.live(a.0));
            assert(self.slots().dom() =~= g1.slots().dom());
            assert(self.stored() == g0.stored() + 1) by {
                assert(!g0.slots().dom().contains(g1.key_of(n)));
            }
            assert forall|x: NodeId| #[trigger] self.metadata_of(x) == g0.metadata_of(x) by {}
            assert forall|x: NodeId| #[trigger] self.has(x) <==> (g0.has(x) || x == id) by {
                assert(g1.live(x.0) == self.live(x.0));
            }
            assert(self.children_of(id) =~= Seq::<NodeId>::empty());
            assert forall|x: NodeId| g0.has(x) implies {
                &&& self.node(x) == g0.node(x)
                &&& self.parent_of(x) == g0.parent_of(x)
                &&& self.is_dirty(x) == g0.is_dirty(x)
                &&& (Some(parent) != Some(x) ==> self.children_of(x) == g0.children_of(x))
                &&& self.depth_of(x) == g0.depth_of(x)
            } by {
                if x.0 != p {
                    assert(self.rec(x.0) == g0.rec(x.0));
                }
            }
            assert forall|x: NodeId|
                g0.has(x) implies #[trigger] self.parent_of(x) == g0.parent_of(x) && self.is_dirty(x) == g0.is_dirty(x) by {
                if x.0 != p {
                    assert(self.rec(x.0) == g0.rec(x.0));
                }
            }
            assert(self.pending() == g0.pending().push(id));
            self.lemma_dirt_pending_added(&g0, id);
        }
        Ok(id)
    }

    /// Returns the data of node `id`.
    pub fn get(&self, id: NodeId) -> (r: Option<&SceneNode>)
        requires
            self.wf(),
        ensures
            match r {
                Some(n) => self.has(id) && *n == self.node(id),
                None => !self.has(id),
            },
    {
        match self.get_record(id) {
            Some(record) => Some(&record.node),
            None => None,
        }
    }

    /// Returns the parent of `id`; `None` for a root or an unknown id.
    pub fn parent(&self, id: NodeId) -> (r: Option<NodeId>)
        requires
            self.wf(),
        ensures
            r == if self.has(id) {
                self.parent_of(id)
            } else {
                None
            },
    {
        match self.get_record(id) {
            Some(record) => record.parent,
            None => None,
        }
    }

    /// Returns the children of `id` in insertion order.
    pub fn children(&self, id: NodeId) -> (r: Option<&[NodeId]>)
        requires
            self.wf(),
        ensures
            match r {
                Some(c) => self.has(id) && c@ == self.children_of(id),
                None => !self.has(id),
            },
    {
        match self.get_record(id) {
            Some(record) => Some(record.children.as_slice()),
            None => None,
        }
    }

    /// Returns the root nodes in insertion order.
    pub fn roots(&self) -> (r: &[NodeId])
        ensures
            r@ == self.root_ids(),
    {
        self.roots.as_slice()
    }

    /// The slot-map key of `id`, if `id` names a node.
    fn key(&self, id: NodeId) -> (k: Option<DefaultKey>)
        requires
            self.index_ok(),
        ensures
            match k {
                Some(key) => self.has(id) && key == self.key_of(id.0),
                None => !self.has(id),
            },
    {
        match id_index(id) {
            None => None,
            Some(index) => {
                if index < self.id_to_key.len() {
                    self.id_to_key[index]
                } else {
                    None
                }
            },
        }
    }

    /// The slot-map key of `id`, or `InvalidId`.
    fn key_or_err(&self, id: NodeId) -> (r: Result<DefaultKey, ValidationError>)
        requires
            self.wf(),
        ensures
            match r {
                Ok(key) => self.has(id) && key == self.key_of(id.0),
                Err(e) => !self.has(id) && e == ValidationError::InvalidId,
            },
    {
        match self.key(id) {
            Some(key) => Ok(key),
            None => Err(ValidationError::InvalidId),
        }
    }

    /// The record of `id`, if `id` names a node.
    fn get_record(&self, id: NodeId) -> (r: Option<&NodeRecord>)
        requires
            self.wf(),
        ensures
            match r {
                Some(rec) => self.has(id) && *rec == self.rec(id.0),
                None => !self.has(id),
            },
    {
        match self.key(id) {
            Some(key) => {
                proof {
                    assert(self.record_ok(id.0));
                }
                slots_get(&self.nodes, key)
            },
            None => None,
        }
    }
}

} // verus!
