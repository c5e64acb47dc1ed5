//! Editor selection kept as a sorted set of node ids, with exact diffs.

use vstd::prelude::*;

use crate::ids::NodeId;

verus! {

/// Whether the ids are in strictly ascending order (so also free of repeats).
pub open spec fn strictly_sorted(s: Seq<NodeId>) -> bool {
    forall|i: int, j: int| 0 <= i < j < s.len() ==> (#[trigger] s[i]).0 < (#[trigger] s[j]).0
}

/// Whether `s` lists exactly the members of `set`, in ascending order.
pub open spec fn lists_sorted(s: Seq<NodeId>, set: Set<NodeId>) -> bool {
    strictly_sorted(s) && s.to_set() == set
}

/// How a selection command combines with the current selection.
#[derive(Clone, Copy, Debug, PartialEq, Eq, Structural, Hash)]
pub enum SelectionMode {
    /// Replace the whole selection (the default).
    Replace,
    /// Add the node if absent.
    Add,
    /// Toggle membership.
    Toggle,
    /// Remove the node if present.
    Remove,
}

impl Default for SelectionMode {
    fn default() -> (m: SelectionMode)
        ensures
            m == SelectionMode::Replace,
    {
        SelectionMode::Replace
    }
}

/// The selected set after applying `mode` with `id` to `old`.
pub open spec fn apply_mode(old: Set<NodeId>, id: NodeId, mode: SelectionMode) -> Set<NodeId> {
    match mode {
        SelectionMode::Replace => set![id],
        SelectionMode::Add => old.insert(id),
        SelectionMode::Toggle => if old.contains(id) {
            old.remove(id)
        } else {
            old.insert(id)
        },
        SelectionMode::Remove => old.remove(id),
    }
}

/// Current in-graph editor selection.
#[derive(Clone, Debug, PartialEq, Eq)]
pub struct SelectionState {
    /// Node under the pointer, if any.
    pub hovered: Option<NodeId>,
    /// Node receiving active interaction, if any.
    pub active: Option<NodeId>,
    /// Selected ids; every operation keeps them strictly ascending.
    pub selected: Vec<NodeId>,
}

/// The exact selection difference produced by one operation.
#[derive(Clone, Debug, PartialEq, Eq, Default)]
pub struct SelectionChange {
    /// Ids the operation added, ascending.
    pub added: Vec<NodeId>,
    /// Ids the operation removed, ascending.
    pub removed: Vec<NodeId>,
}

/// Whether `change` is the exact difference between selections `before` and `after`.
pub open spec fn is_diff(change: SelectionChange, before: Set<NodeId>, after: Set<NodeId>) -> bool {
    &&& lists_sorted(change.added@, after.difference(before))
    &&& lists_sorted(change.removed@, before.difference(after))
}

/// Position of `id` in a strictly ascending sequence (`Ok`), or the position
/// where it would be inserted to keep the order (`Err`).
pub fn binary_search_id(ids: &Vec<NodeId>, id: NodeId) -> (r: Result<usize, usize>)
    requires
        strictly_sorted(ids@),
    ensures
        match r {
            Ok(i) => i < ids@.len() && ids@[i as int] == id,
            Err(i) => i <= ids@.len() && (forall|j: int| 0 <= j < i ==> (#[trigger] ids@[j]).0 < id.0)
                && (forall|j: int| i <= j < ids@.len() ==> (#[trigger] ids@[j]).0 > id.0),
        },
        r is Ok <==> ids@.contains(id),
{
    let mut lo: usize = 0;
    let mut hi: usize = ids.len();
    while lo < hi
        invariant
            lo <= hi <= ids@.len(),
            strictly_sorted(ids@),
            forall|j: int| 0 <= j < lo ==> (#[trigger] ids@[j]).0 < id.0,
            forall|j: int| hi <= j < ids@.len() ==> (#[trigger] ids@[j]).0 > id.0,
        decreases hi - lo,
    {
        let mid = lo + (hi - lo) / 2;
        let v = ids[mid].0;
        if v == id.0 {
            return Ok(mid);
        } else if v < id.0 {
            lo = mid + 1;
        } else {
            hi = mid;
        }
    }
    proof {
        if ids@.contains(id) {
            let k = choose|k: int| 0 <= k < ids@.len() && ids@[k] == id;
            if k < lo {
                assert(ids@[k].0 < id.0);
            } else {
                assert(ids@[k].0 > id.0);
            }
        }
    }
    Err(lo)
}

/// Inserting at the search position keeps a sequence strictly ascending.
proof fn lemma_insert_sorted(s: Seq<NodeId>, i: int, id: NodeId)
    requires
        strictly_sorted(s),
        0 <= i <= s.len(),
        forall|j: int| 0 <= j < i ==> (#[trigger] s[j]).0 < id.0,
        forall|j: int| i <= j < s.len() ==> (#[trigger] s[j]).0 > id.0,
    ensures
        strictly_sorted(s.insert(i, id)),
        s.insert(i, id).to_set() == s.to_set().insert(id),
{
    let t = s.insert(i, id);
    assert forall|a: int, b: int| 0 <= a < b < t.len() implies (#[trigger] t[a]).0 < (
    #[trigger] t[b]).0 by {
        if a < i && b < i {
        } else if a < i && b == i {
        } else if a < i {
            assert(s[a].0 < s[b - 1].0);
        } else if a == i {
            assert(t[b] == s[b - 1]);
        } else {
            assert(t[a] == s[a - 1] && t[b] == s[b - 1]);
        }
    }
    assert forall|x: NodeId| t.to_set().contains(x) <==> s.to_set().insert(id).contains(x) by {
        if t.contains(x) {
            let k = choose|k: int| 0 <= k < t.len() && t[k] == x;
            if k < i {
                assert(s[k] == x);
            } else if k > i {
                assert(s[k - 1] == x);
            }
        }
        if s.contains(x) {
            let k = choose|k: int| 0 <= k < s.len() && s[k] == x;
            if k < i {
                assert(t[k] == x);
            } else {
                assert(t[k + 1] == x);
            }
        }
        if x == id {
            assert(t[i] == id);
        }
    }
    assert(t.to_set() =~= s.to_set().insert(id));
}

/// Removing one element keeps a sequence strictly ascending and drops exactly it.
proof fn lemma_remove_sorted(s: Seq<NodeId>, i: int)
    requires
        strictly_sorted(s),
        0 <= i < s.len(),
    ensures
        strictly_sorted(s.remove(i)),
        s.remove(i).to_set() == s.to_set().remove(s[i]),
{
    let t = s.remove(i);
    assert forall|a: int, b: int| 0 <= a < b < t.len() implies (#[trigger] t[a]).0 < (
    #[trigger] t[b]).0 by {
        if a < i && b < i {
        } else if a < i {
            assert(t[b] == s[b + 1]);
        } else {
            assert(t[a] == s[a + 1] && t[b] == s[b + 1]);
        }
    }
    assert forall|x: NodeId| t.to_set().contains(x) <==> s.to_set().remove(s[i]).contains(x) by {
        if t.contains(x) {
            let k = choose|k: int| 0 <= k < t.len() && t[k] == x;
            if k < i {
                assert(s[k] == x);
                assert(s[k].0 < s[i].0);
            } else {
                assert(s[k + 1] == x);
                assert(s[i].0 < s[k + 1].0);
            }
        }
        if s.contains(x) && x != s[i] {
            let k = choose|k: int| 0 <= k < s.len() && s[k] == x;
            if k < i {
                assert(t[k] == x);
            } else {
                assert(k != i);
                assert(t[k - 1] == x);
            }
        }
    }
    assert(t.to_set() =~= s.to_set().remove(s[i]));
}

/// The ids of `s` that `other` lacks, in the order of `s`.
fn ids_missing_from(s: &Vec<NodeId>, other: &Vec<NodeId>) -> (r: Vec<NodeId>)
    requires
        strictly_sorted(s@),
        strictly_sorted(other@),
    ensures
        lists_sorted(r@, s@.to_set().difference(other@.to_set())),
{
    let mut out: Vec<NodeId> = Vec::new();
    let mut i: usize = 0;
    while i < s.len()
        invariant
            i <= s@.len(),
            strictly_sorted(s@),
            strictly_sorted(other@),
            strictly_sorted(out@),
            forall|k: int| 0 <= k < out@.len() ==> exists|j: int| 0 <= j < i && s@[j] == #[trigger] out@[k],
            forall|j: int|
                0 <= j < i ==> (out@.contains(#[trigger] s@[j]) <==> !other@.contains(s@[j])),
            forall|k: int| 0 <= k < out@.len() ==> !other@.contains(#[trigger] out@[k]),
            out@.len() > 0 ==> exists|j: int| 0 <= j < i && s@[j] == out@.last(),
        decreases s@.len() - i,
    {
        let id = s[i];
        if binary_search_id(other, id).is_err() {
            let ghost before = out@;
            proof {
                if before.len() > 0 {
                    let j = choose|j: int| 0 <= j < i && s@[j] == before.last();
                    assert(s@[j].0 < s@[i as int].0);
                }
            }
            out.push(id);
            proof {
                assert forall|a: int, b: int| 0 <= a < b < out@.len() implies (#[trigger] out@[a]).0
                    < (#[trigger] out@[b]).0 by {
                    if b == out@.len() - 1 && a < b {
                        let ja = choose|j: int| 0 <= j < i && s@[j] == #[trigger] before[a];
                        assert(s@[ja].0 < s@[i as int].0);
                    }
                }
                assert forall|j: int| 0 <= j < i + 1 implies (out@.contains(#[trigger] s@[j])
                    <==> !other@.contains(s@[j])) by {
                    if j < i {
                        if out@.contains(s@[j]) && !before.contains(s@[j]) {
                            let k = choose|k: int| 0 <= k < out@.len() && out@[k] == s@[j];
                            assert(k == before.len());
                            assert(s@[j].0 < s@[i as int].0);
                        }
                        if before.contains(s@[j]) {
                            let k = choose|k: int| 0 <= k < before.len() && before[k] == s@[j];
                            assert(out@[k] == s@[j]);
                        }
                    } else {
                        assert(out@[out@.len() - 1] == s@[j]);
                    }
                }
                assert forall|k: int| 0 <= k < out@.len() implies exists|j: int|
                    0 <= j < i + 1 && s@[j] == #[trigger] out@[k] by {
                    if k < before.len() {
                        let j = choose|j: int| 0 <= j < i && s@[j] == #[trigger] before[k];
                        assert(s@[j] == out@[k]);
                    } else {
                        assert(s@[i as int] == out@[k]);
                    }
                }
            }
        } else {
            proof {
                assert forall|j: int| 0 <= j < i + 1 implies (out@.contains(#[trigger] s@[j])
                    <==> !other@.contains(s@[j])) by {
                    if j == i && out@.contains(s@[j]) {
                        let k = choose|k: int| 0 <= k < out@.len() && out@[k] == s@[j];
                        assert(!other@.contains(out@[k]));
                    }
                }
            }
        }
        i = i + 1;
    }
    proof {
        assert forall|x: NodeId| out@.to_set().contains(x) <==> s@.to_set().difference(
            other@.to_set(),
        ).contains(x) by {
            if out@.contains(x) {
                let k = choose|k: int| 0 <= k < out@.len() && out@[k] == x;
                let j = choose|j: int| 0 <= j < s@.len() && s@[j] == #[trigger] out@[k];
                assert(s@.contains(x));
            }
            if s@.contains(x) {
                let j = choose|j: int| 0 <= j < s@.len() && s@[j] == x;
                assert(out@.contains(s@[j]) <==> !other@.contains(s@[j]));
            }
        }
        assert(out@.to_set() =~= s@.to_set().difference(other@.to_set()));
    }
    out
}

/// The exact difference between two strictly ascending selections.
fn selection_diff(previous: &Vec<NodeId>, current: &Vec<NodeId>) -> (c: SelectionChange)
    requires
        strictly_sorted(previous@),
        strictly_sorted(current@),
    ensures
        is_diff(c, previous@.to_set(), current@.to_set()),
{
    SelectionChange {
        added: ids_missing_from(current, previous),
        removed: ids_missing_from(previous, current),
    }
}

/// Sorts and deduplicates ids into a strictly ascending vector.
pub(crate) fn sorted_unique(ids: Vec<NodeId>) -> (r: Vec<NodeId>)
    ensures
        lists_sorted(r@, ids@.to_set()),
{
    let mut out: Vec<NodeId> = Vec::new();
    let mut i: usize = 0;
    while i < ids.len()
        invariant
            i <= ids@.len(),
            strictly_sorted(out@),
            out@.to_set() == ids@.take(i as int).to_set(),
        decreases ids@.len() - i,
    {
        let id = ids[i];
        proof {
            assert(ids@.take(i as int + 1) =~= ids@.take(i as int).push(id));
            ids@.take(i as int).lemma_push_to_set_commute(id);
        }
        match binary_search_id(&out, id) {
            Ok(_) => {
                assert(out@.to_set().contains(id));
                assert(out@.to_set().insert(id) =~= out@.to_set());
            },
            Err(pos) => {
                proof {
                    lemma_insert_sorted(out@, pos as int, id);
                }
                out.insert(pos, id);
            },
        }
        i = i + 1;
    }
    assert(ids@.take(ids@.len() as int) =~= ids@);
    out
}

impl SelectionState {
    /// Whether the selected ids are strictly ascending.
    pub open spec fn wf(&self) -> bool {
        strictly_sorted(self.selected_ids())
    }

    /// The selected ids, ascending.
    pub open spec fn selected_ids(&self) -> Seq<NodeId> {
        self.selected@
    }

    /// The selected set.
    pub open spec fn selected_set(&self) -> Set<NodeId> {
        self.selected_ids().to_set()
    }

    /// Creates an empty selection with nothing hovered or active.
    pub fn new() -> (s: SelectionState)
        ensures
            s.wf(),
            s.selected_ids() == Seq::<NodeId>::empty(),
            s.hovered is None,
            s.active is None,
    {
        SelectionState { hovered: None, active: None, selected: Vec::new() }
    }

    /// The selected ids in ascending order.
    pub fn selected(&self) -> (r: &[NodeId])
        ensures
            r@ == self.selected_ids(),
    {
        self.selected.as_slice()
    }

    /// Returns whether `id` is selected.
    pub fn contains(&self, id: NodeId) -> (b: bool)
        requires
            self.wf(),
        ensures
            b == self.selected_set().contains(id),
    {
        binary_search_id(&self.selected, id).is_ok()
    }
}

impl Default for SelectionState {
    fn default() -> (s: SelectionState)
        ensures
            s.wf(),
            s.selected_ids() == Seq::<NodeId>::empty(),
            s.hovered is None,
            s.active is None,
    {
        SelectionState::new()
    }
}

/// Applies one selection command and reports what it changed.
pub fn apply_selection(state: &mut SelectionState, id: NodeId, mode: SelectionMode) -> (c:
    SelectionChange)
    requires
        old(state).wf(),
    ensures
        final(state).wf(),
        final(state).selected_set() == apply_mode(old(state).selected_set(), id, mode),
        final(state).hovered == old(state).hovered,
        final(state).active == old(state).active,
        is_diff(c, old(state).selected_set(), final(state).selected_set()),
{
    let previous = state.selected.clone();
    assert(previous@ =~= state.selected@) by {
        assert forall|k: int| 0 <= k < previous@.len() implies previous@[k] == state.selected@[k] by {
            assert(vstd::pervasive::cloned(state.selected@[k], previous@[k]));
        }
    }
    match mode {
        SelectionMode::Replace => {
            state.selected.clear();
            state.selected.push(id);
            proof {
                assert(state.selected@ =~= seq![id]);
                assert(seq![id].to_set() =~= set![id]) by {
                    assert(seq![id][0] == id);
                    assert(seq![id].contains(id));
                }
            }
        },
        SelectionMode::Add => {
            match binary_search_id(&state.selected, id) {
                Ok(_) => {
                    assert(state.selected@.to_set().insert(id) =~= state.selected@.to_set());
                },
                Err(index) => {
                    proof {
                        lemma_insert_sorted(state.selected@, index as int, id);
                    }
                    state.selected.insert(index, id);
                },
            }
        },
        SelectionMode::Toggle => {
            match binary_search_id(&state.selected, id) {
                Ok(index) => {
                    proof {
                        lemma_remove_sorted(state.selected@, index as int);
                    }
                    state.selected.remove(index);
                },
                Err(index) => {
                    proof {
                        lemma_insert_sorted(state.selected@, index as int, id);
                    }
                    state.selected.insert(index, id);
                },
            }
        },
        SelectionMode::Remove => {
            match binary_search_id(&state.selected, id) {
                Ok(index) => {
                    proof {
                        lemma_remove_sorted(state.selected@, index as int);
                    }
                    state.selected.remove(index);
                },
                Err(_) => {
                    assert(state.selected@.to_set().remove(id) =~= state.selected@.to_set());
                },
            }
        },
    }
    selection_diff(&previous, &state.selected)
}

/// Replaces the selection with the given ids (sorted and deduplicated) and
/// reports what changed.
pub fn replace_selection(state: &mut SelectionState, selected: Vec<NodeId>) -> (c: SelectionChange)
    requires
        old(state).wf(),
    ensures
        final(state).wf(),
        final(state).selected_set() == selected@.to_set(),
        final(state).hovered == old(state).hovered,
        final(state).active == old(state).active,
        is_diff(c, old(state).selected_set(), final(state).selected_set()),
{
    let sorted = sorted_unique(selected);
    let mut previous = sorted;
    core::mem::swap(&mut previous, &mut state.selected);
    selection_diff(&previous, &state.selected)
}

/// Toggling the same node twice restores the selection.
pub proof fn lemma_toggle_twice(selection: Set<NodeId>, id: NodeId)
    ensures
        apply_mode(apply_mode(selection, id, SelectionMode::Toggle), id, SelectionMode::Toggle)
            == selection,
{
    if selection.contains(id) {
        assert(selection.remove(id).insert(id) =~= selection);
    } else {
        assert(selection.insert(id).remove(id) =~= selection);
    }
}

/// A strictly ascending listing of a set is unique: two of them are equal.
pub proof fn lemma_sorted_listing_unique(a: Seq<NodeId>, b: Seq<NodeId>, set: Set<NodeId>)
    requires
        lists_sorted(a, set),
        lists_sorted(b, set),
    ensures
        a == b,
    decreases a.len(),
{
    if a.len() == 0 {
        if b.len() > 0 {
            assert(b.to_set().contains(b[0]));
        }
        assert(a =~= b);
    } else if b.len() == 0 {
        assert(a.to_set().contains(a[0]));
    } else {
        let x = a.last();
        let y = b.last();
        assert(a.to_set().contains(x));
        assert(b.to_set().contains(y));
        assert(b.contains(x));
        assert(a.contains(y));
        let ia = choose|k: int| 0 <= k < a.len() && a[k] == y;
        let ib = choose|k: int| 0 <= k < b.len() && b[k] == x;
        if ia < a.len() - 1 {
            assert(y.0 < x.0);
        }
        if ib < b.len() - 1 {
            assert(x.0 < y.0);
        }
        assert(x == y);
        let rest = set.remove(x);
        assert forall|z: NodeId| a.drop_last().to_set().contains(z) <==> rest.contains(z) by {
            if a.drop_last().contains(z) {
                let k = choose|k: int| 0 <= k < a.drop_last().len() && a.drop_last()[k] == z;
                assert(a[k] == z);
                assert(z.0 < x.0);
            }
            if rest.contains(z) {
                assert(a.contains(z));
                let k = choose|k: int| 0 <= k < a.len() && a[k] == z;
                assert(k != a.len() - 1);
                assert(a.drop_last()[k] == z);
            }
        }
        assert forall|z: NodeId| b.drop_last().to_set().contains(z) <==> rest.contains(z) by {
            if b.drop_last().contains(z) {
                let k = choose|k: int| 0 <= k < b.drop_last().len() && b.drop_last()[k] == z;
                assert(b[k] == z);
                assert(z.0 < x.0);
            }
            if rest.contains(z) {
                assert(b.contains(z));
                let k = choose|k: int| 0 <= k < b.len() && b[k] == z;
                assert(k != b.len() - 1);
                assert(b.drop_last()[k] == z);
            }
        }
        assert(a.drop_last().to_set() =~= rest);
        assert(b.drop_last().to_set() =~= rest);
        lemma_sorted_listing_unique(a.drop_last(), b.drop_last(), rest);
        assert(a =~= b.drop_last().push(y));
        assert(b =~= b.drop_last().push(y));
    }
}


/// What each selection command does to the selected set: `Replace` leaves
/// exactly `id` selected; `Add` selects `id`; `Toggle` flips whether `id` is
/// selected; `Remove` deselects `id`. Apart from `Replace`, no other node's
/// membership changes.
pub proof fn lemma_selection_commands(before: Set<NodeId>, id: NodeId, x: NodeId)
    ensures
        apply_mode(before, id, SelectionMode::Replace).contains(x) <==> x == id,
        apply_mode(before, id, SelectionMode::Add).contains(id),
        !apply_mode(before, id, SelectionMode::Remove).contains(id),
        apply_mode(before, id, SelectionMode::Toggle).contains(id) == !before.contains(id),
        x != id ==> apply_mode(before, id, SelectionMode::Add).contains(x) == before.contains(x),
        x != id ==> apply_mode(before, id, SelectionMode::Toggle).contains(x) == before.contains(x),
        x != id ==> apply_mode(before, id, SelectionMode::Remove).contains(x) == before.contains(x),
{
}

/// The change reported for deselecting a selected node lists that node as
/// removed and nothing as added; deselecting a node that was not selected
/// reports no change.
pub proof fn lemma_remove_reports_the_node(before: Set<NodeId>, id: NodeId, change: SelectionChange)
    requires
        is_diff(change, before, apply_mode(before, id, SelectionMode::Remove)),
    ensures
        change.added@.len() == 0,
        before.contains(id) ==> change.removed@ == seq![id],
        !before.contains(id) ==> change.removed@.len() == 0,
{
    let after = apply_mode(before, id, SelectionMode::Remove);
    assert(after.difference(before) =~= Set::<NodeId>::empty());
    assert(Seq::<NodeId>::empty().to_set() =~= Set::<NodeId>::empty());
    assert forall|x: NodeId| #[trigger] seq![id].to_set().contains(x) <==> x == id by {
        if x == id {
            assert(seq![id][0] == id);
        }
    }
    lemma_sorted_listing_unique(change.added@, Seq::<NodeId>::empty(), Set::<NodeId>::empty());
    if before.contains(id) {
        assert(before.difference(after) =~= set![id]);
        assert(seq![id].to_set() =~= set![id]);
        lemma_sorted_listing_unique(change.removed@, seq![id], set![id]);
    } else {
        assert(before.difference(after) =~= Set::<NodeId>::empty());
        lemma_sorted_listing_unique(change.removed@, Seq::<NodeId>::empty(), Set::<NodeId>::empty());
    }
}

} // verus!
