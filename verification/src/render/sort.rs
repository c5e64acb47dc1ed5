//! Draw ordering: opaque draws front to back for early depth rejection,
//! transparent draws back to front for blending, both grouped first by
//! their explicit render order. Both sorts are stable.

use vstd::prelude::*;

use crate::ids::{MaterialId, MeshId};

verus! {

/// A visible draw produced from a scene node.
#[derive(Clone, Copy, Debug, PartialEq, Eq, Structural)]
pub struct DrawSubmission {
    /// Mesh resource id.
    pub mesh_id: MeshId,
    /// Material resource id.
    pub material_id: MaterialId,
    /// Camera distance as an order key: a larger key is a farther draw.
    pub depth_key: u32,
    /// Whether the draw needs transparent sorting.
    pub transparent: bool,
    /// Stable render order, compared before the distance.
    pub render_order: u32,
}

/// Whether `a` goes strictly before `b`: lower render order first, then the
/// nearer draw first (`back_to_front` false) or the farther first (true).
pub open spec fn draw_before(a: DrawSubmission, b: DrawSubmission, back_to_front: bool) -> bool {
    a.render_order < b.render_order || (a.render_order == b.render_order && if back_to_front {
        a.depth_key > b.depth_key
    } else {
        a.depth_key < b.depth_key
    })
}

/// Whether neither of `a` and `b` goes before the other.
pub open spec fn draw_tied(a: DrawSubmission, b: DrawSubmission) -> bool {
    a.render_order == b.render_order && a.depth_key == b.depth_key
}

/// Whether `idx` lists each of `0..n` exactly once.
pub open spec fn is_index_permutation(idx: Seq<int>, n: int) -> bool {
    &&& idx.len() == n
    &&& forall|k: int| 0 <= k < n ==> 0 <= #[trigger] idx[k] < n
    &&& forall|a: int, b: int| 0 <= a < b < n ==> #[trigger] idx[a] != #[trigger] idx[b]
}

/// Whether `after` is `before` rearranged by `idx`, sorted by
/// [`draw_before`], with tied draws in their input order.
pub open spec fn stable_sorted_by(before: Seq<DrawSubmission>, after: Seq<DrawSubmission>, idx: Seq<int>, back_to_front: bool) -> bool {
    &&& is_index_permutation(idx, before.len() as int)
    &&& after.len() == before.len()
    &&& forall|k: int| 0 <= k < after.len() ==> #[trigger] after[k] == before[idx[k]]
    &&& forall|a: int, b: int|
        0 <= a < b < after.len() ==> !draw_before(#[trigger] after[b], #[trigger] after[a], back_to_front)
    &&& forall|a: int, b: int|
        0 <= a < b < after.len() && draw_tied(#[trigger] after[a], #[trigger] after[b]) ==> idx[a] < idx[b]
}

/// Whether `after` is the stable sort of `before` under [`draw_before`].
pub open spec fn is_stable_sort(before: Seq<DrawSubmission>, after: Seq<DrawSubmission>, back_to_front: bool) -> bool {
    exists|idx: Seq<int>| stable_sorted_by(before, after, idx, back_to_front)
}

/// After sorting, render orders never decrease; among draws of one render
/// order, depth keys never decrease for front-to-back sorting and never
/// increase for back-to-front sorting; and the draws are those of the input.
pub proof fn lemma_sorted_draw_order(
    before: Seq<DrawSubmission>,
    after: Seq<DrawSubmission>,
    back_to_front: bool,
    i: int,
    j: int,
)
    requires
        is_stable_sort(before, after, back_to_front),
        0 <= i < j < after.len(),
    ensures
        after.len() == before.len(),
        after[i].render_order <= after[j].render_order,
        after[i].render_order == after[j].render_order && !back_to_front ==> after[i].depth_key
            <= after[j].depth_key,
        after[i].render_order == after[j].render_order && back_to_front ==> after[i].depth_key
            >= after[j].depth_key,
        exists|k: int| 0 <= k < before.len() && before[k] == after[i],
{
    let idx = choose|idx: Seq<int>| stable_sorted_by(before, after, idx, back_to_front);
    assert(!draw_before(after[j], after[i], back_to_front));
    assert(after[i] == before[idx[i]]);
}

fn goes_before(a: &DrawSubmission, b: &DrawSubmission, back_to_front: bool) -> (r: bool)
    ensures
        r == draw_before(*a, *b, back_to_front),
{
    if a.render_order != b.render_order {
        a.render_order < b.render_order
    } else if back_to_front {
        a.depth_key > b.depth_key
    } else {
        a.depth_key < b.depth_key
    }
}

/// Stable insertion sort of `draws` under [`draw_before`].
fn stable_sort(draws: &mut Vec<DrawSubmission>, back_to_front: bool)
    ensures
        is_stable_sort(old(draws)@, final(draws)@, back_to_front),
{
    let ghost input = draws@;
    let n = draws.len();
    let mut out: Vec<DrawSubmission> = Vec::with_capacity(n);
    let ghost mut idx: Seq<int> = Seq::empty();
    let mut i: usize = 0;
    while i < n
        invariant
            n == input.len(),
            draws@ == input,
            i <= n,
            stable_sorted_by(input.subrange(0, i as int), out@, idx, back_to_front),
        decreases n - i,
    {
        let x = draws[i];
        let mut k: usize = 0;
        while k < out.len() && !goes_before(&x, &out[k], back_to_front)
            invariant
                k <= out@.len(),
                forall|m: int| 0 <= m < k ==> !draw_before(x, #[trigger] out@[m], back_to_front),
            decreases out@.len() - k,
        {
            k += 1;
        }
        let ghost old_out = out@;
        let ghost old_idx = idx;
        out.insert(k, x);
        proof {
            idx = old_idx.insert(k as int, i as int);
            let pre = input.subrange(0, i as int);
            let now = input.subrange(0, i + 1);
            assert forall|m: int| 0 <= m < out@.len() implies #[trigger] out@[m] == now[idx[m]] by {
                if m < k {
                    assert(out@[m] == old_out[m]);
                    assert(idx[m] == old_idx[m]);
                    assert(pre[old_idx[m]] == now[old_idx[m]]);
                } else if m > k {
                    assert(out@[m] == old_out[m - 1]);
                    assert(idx[m] == old_idx[m - 1]);
                    assert(pre[old_idx[m - 1]] == now[old_idx[m - 1]]);
                }
            }
            assert forall|a: int, b: int| 0 <= a < b < out@.len() implies !draw_before(
                #[trigger] out@[b],
                #[trigger] out@[a],
                back_to_front,
            ) by {
                if b == k {
                    assert(out@[a] == old_out[a]);
                } else if a == k {
                    // everything after the insertion point is strictly later than x
                    assert(out@[b] == old_out[b - 1]);
                    if k < old_out.len() {
                        assert(draw_before(x, old_out[k as int], back_to_front));
                        if b - 1 > k {
                            assert(!draw_before(old_out[b - 1], old_out[k as int], back_to_front));
                        }
                    }
                } else {
                    let a0 = if a < k { a } else { a - 1 };
                    let b0 = if b < k { b } else { b - 1 };
                    assert(out@[a] == old_out[a0]);
                    assert(out@[b] == old_out[b0]);
                }
            }
            assert forall|a: int, b: int|
                0 <= a < b < out@.len() && draw_tied(#[trigger] out@[a], #[trigger] out@[b]) implies idx[a]
                < idx[b] by {
                if b == k {
                    assert(idx[b] == i);
                    assert(idx[a] == old_idx[a]);
                } else if a == k {
                    assert(out@[b] == old_out[b - 1]);
                    assert(draw_before(x, old_out[k as int], back_to_front));
                    if b - 1 > k {
                        assert(!draw_before(old_out[b - 1], old_out[k as int], back_to_front));
                    }
                } else {
                    let a0 = if a < k { a } else { a - 1 };
                    let b0 = if b < k { b } else { b - 1 };
                    assert(out@[a] == old_out[a0]);
                    assert(out@[b] == old_out[b0]);
                    assert(idx[a] == old_idx[a0]);
                    assert(idx[b] == old_idx[b0]);
                }
            }
            assert forall|m: int| 0 <= m < i + 1 implies 0 <= #[trigger] idx[m] < i + 1 by {
                if m < k {
                    assert(idx[m] == old_idx[m]);
                } else if m > k {
                    assert(idx[m] == old_idx[m - 1]);
                }
            }
            assert forall|a: int, b: int| 0 <= a < b < i + 1 implies #[trigger] idx[a] != #[trigger] idx[b] by {
                let a0 = if a < k { a } else { a - 1 };
                let b0 = if b < k { b } else { b - 1 };
                if a != k && b != k {
                    assert(idx[a] == old_idx[a0]);
                    assert(idx[b] == old_idx[b0]);
                } else if a == k {
                    assert(idx[b] == old_idx[b0]);
                } else {
                    assert(idx[a] == old_idx[a0]);
                }
            }
        }
        i += 1;
    }
    proof {
        assert(input.subrange(0, n as int) =~= input);
    }
    *draws = out;
}

/// Sorts opaque draws by render order, then nearest first; draws that tie
/// keep their order.
pub fn sort_opaque_front_to_back(draws: &mut Vec<DrawSubmission>)
    ensures
        is_stable_sort(old(draws)@, final(draws)@, false),
{
    stable_sort(draws, false);
}

/// Sorts transparent draws by render order, then farthest first; draws that
/// tie keep their order.
pub fn sort_transparent_back_to_front(draws: &mut Vec<DrawSubmission>)
    ensures
        is_stable_sort(old(draws)@, final(draws)@, true),
{
    stable_sort(draws, true);
}

/// The opaque draws of `draws`, in their order.
pub open spec fn opaque_draws(draws: Seq<DrawSubmission>) -> Seq<DrawSubmission> {
    draws.filter(|d: DrawSubmission| !d.transparent)
}

/// The transparent draws of `draws`, in their order.
pub open spec fn transparent_draws(draws: Seq<DrawSubmission>) -> Seq<DrawSubmission> {
    draws.filter(|d: DrawSubmission| d.transparent)
}

/// Splits the visible draws of a frame into opaque and transparent ones and
/// sorts each: opaque front to back, transparent back to front.
pub fn order_draws(draws: Vec<DrawSubmission>) -> (r: (Vec<DrawSubmission>, Vec<DrawSubmission>))
    ensures
        is_stable_sort(opaque_draws(draws@), r.0@, false),
        is_stable_sort(transparent_draws(draws@), r.1@, true),
{
    let mut opaque: Vec<DrawSubmission> = Vec::new();
    let mut transparent: Vec<DrawSubmission> = Vec::new();
    let mut i: usize = 0;
    while i < draws.len()
        invariant
            i <= draws@.len(),
            opaque@ == opaque_draws(draws@.subrange(0, i as int)),
            transparent@ == transparent_draws(draws@.subrange(0, i as int)),
        decreases draws@.len() - i,
    {
        let d = draws[i];
        proof {
            let next = draws@.subrange(0, i + 1);
            assert(next.drop_last() =~= draws@.subrange(0, i as int));
            assert(next.last() == d);
            reveal(Seq::filter);
        }
        if d.transparent {
            transparent.push(d);
        } else {
            opaque.push(d);
        }
        i += 1;
    }
    proof {
        assert(draws@.subrange(0, draws@.len() as int) =~= draws@);
    }
    sort_opaque_front_to_back(&mut opaque);
    sort_transparent_back_to_front(&mut transparent);
    (opaque, transparent)
}

} // verus!
