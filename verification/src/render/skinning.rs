//! Per-mesh skinning state kept for the GPU: joint matrices and morph
//! weights by mesh id. The registry never looks inside a joint or a weight,
//! so both are type parameters.

use std::collections::BTreeMap;

use vstd::prelude::*;

use crate::ids::MeshId;

verus! {

broadcast use {vstd::std_specs::btree::group_btree_axioms, vstd::laws_cmp::group_laws_cmp};

/// Joint matrices (`J`) and morph weights (`W`) registered per mesh.
pub struct GpuSkinningRegistry<J, W> {
    joints: BTreeMap<u64, Vec<J>>,
    morph_weights: BTreeMap<u64, Vec<W>>,
}

impl<J, W> GpuSkinningRegistry<J, W> {
    /// Registered joint matrices by raw mesh id.
    pub closed spec fn skins(&self) -> Map<u64, Seq<J>> {
        self.joints@.map_values(|v: Vec<J>| v@)
    }

    /// Registered morph weights by raw mesh id.
    pub closed spec fn morphs(&self) -> Map<u64, Seq<W>> {
        self.morph_weights@.map_values(|v: Vec<W>| v@)
    }

    /// Creates an empty registry.
    pub fn new() -> (r: GpuSkinningRegistry<J, W>)
        ensures
            r.skins() == Map::<u64, Seq<J>>::empty(),
            r.morphs() == Map::<u64, Seq<W>>::empty(),
    {
        let r = GpuSkinningRegistry { joints: BTreeMap::new(), morph_weights: BTreeMap::new() };
        assert(r.skins() =~= Map::<u64, Seq<J>>::empty());
        assert(r.morphs() =~= Map::<u64, Seq<W>>::empty());
        r
    }

    /// Registers, or replaces, the joint matrices of `mesh_id`.
    pub fn register_skin(&mut self, mesh_id: MeshId, bones: Vec<J>)
        ensures
            final(self).skins() == old(self).skins().insert(mesh_id.0, bones@),
            final(self).morphs() == old(self).morphs(),
    {
        let ghost b = bones@;
        self.joints.insert(mesh_id.0, bones);
        assert(self.skins() =~= old(self).skins().insert(mesh_id.0, b));
    }

    /// Unregisters the skin of `mesh_id`; answers whether there was one.
    pub fn unregister_skin(&mut self, mesh_id: MeshId) -> (removed: bool)
        ensures
            removed == old(self).skins().contains_key(mesh_id.0),
            final(self).skins() == old(self).skins().remove(mesh_id.0),
            final(self).morphs() == old(self).morphs(),
    {
        let r = self.joints.remove(&mesh_id.0);
        assert(self.skins() =~= old(self).skins().remove(mesh_id.0));
        r.is_some()
    }

    /// Registers, or replaces, the morph weights of `mesh_id`.
    pub fn register_morph_targets(&mut self, mesh_id: MeshId, weights: Vec<W>)
        ensures
            final(self).morphs() == old(self).morphs().insert(mesh_id.0, weights@),
            final(self).skins() == old(self).skins(),
    {
        let ghost w = weights@;
        self.morph_weights.insert(mesh_id.0, weights);
        assert(self.morphs() =~= old(self).morphs().insert(mesh_id.0, w));
    }

    /// Unregisters the morph weights of `mesh_id`; answers whether there were
    /// any.
    pub fn unregister_morph(&mut self, mesh_id: MeshId) -> (removed: bool)
        ensures
            removed == old(self).morphs().contains_key(mesh_id.0),
            final(self).morphs() == old(self).morphs().remove(mesh_id.0),
            final(self).skins() == old(self).skins(),
    {
        let r = self.morph_weights.remove(&mesh_id.0);
        assert(self.morphs() =~= old(self).morphs().remove(mesh_id.0));
        r.is_some()
    }

    /// The joint matrices of `mesh_id`, if it has a skin.
    pub fn bones(&self, mesh_id: MeshId) -> (r: Option<&[J]>)
        ensures
            match r {
                Some(s) => self.skins().contains_key(mesh_id.0) && s@ == self.skins()[mesh_id.0],
                None => !self.skins().contains_key(mesh_id.0),
            },
    {
        match self.joints.get(&mesh_id.0) {
            Some(v) => Some(v.as_slice()),
            None => None,
        }
    }

    /// The morph weights of `mesh_id`, if it has any.
    pub fn morph_weights(&self, mesh_id: MeshId) -> (r: Option<&[W]>)
        ensures
            match r {
                Some(s) => self.morphs().contains_key(mesh_id.0) && s@ == self.morphs()[mesh_id.0],
                None => !self.morphs().contains_key(mesh_id.0),
            },
    {
        match self.morph_weights.get(&mesh_id.0) {
            Some(v) => Some(v.as_slice()),
            None => None,
        }
    }

    /// Whether `mesh_id` has a registered skin.
    pub fn has_skin(&self, mesh_id: MeshId) -> (b: bool)
        ensures
            b == self.skins().contains_key(mesh_id.0),
    {
        self.joints.contains_key(&mesh_id.0)
    }

    /// Whether `mesh_id` has registered morph weights.
    pub fn has_morph(&self, mesh_id: MeshId) -> (b: bool)
        ensures
            b == self.morphs().contains_key(mesh_id.0),
    {
        self.morph_weights.contains_key(&mesh_id.0)
    }

    /// Number of registered skins.
    pub fn skin_count(&self) -> (n: usize)
        ensures
            n == self.skins().len(),
    {
        assert(self.skins().dom() =~= self.joints@.dom());
        self.joints.len()
    }

    /// Number of registered morph weight stacks.
    pub fn morph_count(&self) -> (n: usize)
        ensures
            n == self.morphs().len(),
    {
        assert(self.morphs().dom() =~= self.morph_weights@.dom());
        self.morph_weights.len()
    }
}

/// A vector holding the items of `items`, in order.
fn copy_items<T: Copy>(items: &[T]) -> (v: Vec<T>)
    ensures
        v@ == items@,
{
    let mut v: Vec<T> = Vec::with_capacity(items.len());
    let mut i: usize = 0;
    while i < items.len()
        invariant
            i <= items@.len(),
            v@ == items@.subrange(0, i as int),
        decreases items@.len() - i,
    {
        v.push(items[i]);
        i += 1;
    }
    assert(items@.subrange(0, items@.len() as int) =~= items@);
    v
}

impl<J: Copy, W> GpuSkinningRegistry<J, W> {
    /// Overwrites the joint matrices of `mesh_id` with `bones`; answers
    /// `false`, changing nothing, where the mesh has no skin.
    pub fn update_bone_matrices(&mut self, mesh_id: MeshId, bones: &[J]) -> (updated: bool)
        ensures
            updated == old(self).skins().contains_key(mesh_id.0),
            final(self).skins() == if updated {
                old(self).skins().insert(mesh_id.0, bones@)
            } else {
                old(self).skins()
            },
            final(self).morphs() == old(self).morphs(),
    {
        if !self.joints.contains_key(&mesh_id.0) {
            return false;
        }
        let v = copy_items(bones);
        self.joints.insert(mesh_id.0, v);
        assert(self.skins() =~= old(self).skins().insert(mesh_id.0, bones@));
        true
    }
}

impl<J, W: Copy> GpuSkinningRegistry<J, W> {
    /// Overwrites the morph weights of `mesh_id` with `weights`; answers
    /// `false`, changing nothing, where the mesh has none.
    pub fn update_morph_weights(&mut self, mesh_id: MeshId, weights: &[W]) -> (updated: bool)
        ensures
            updated == old(self).morphs().contains_key(mesh_id.0),
            final(self).morphs() == if updated {
                old(self).morphs().insert(mesh_id.0, weights@)
            } else {
                old(self).morphs()
            },
            final(self).skins() == old(self).skins(),
    {
        if !self.morph_weights.contains_key(&mesh_id.0) {
            return false;
        }
        let v = copy_items(weights);
        self.morph_weights.insert(mesh_id.0, v);
        assert(self.morphs() =~= old(self).morphs().insert(mesh_id.0, weights@));
        true
    }
}

impl<J, W> Default for GpuSkinningRegistry<J, W> {
    fn default() -> (r: GpuSkinningRegistry<J, W>)
        ensures
            r.skins() == Map::<u64, Seq<J>>::empty(),
            r.morphs() == Map::<u64, Seq<W>>::empty(),
    {
        GpuSkinningRegistry::new()
    }
}

/// Updating a registered skin replaces its joints with the given ones, which
/// a lookup then gives back.
pub proof fn lemma_update_after_register<J, W>(
    r0: &GpuSkinningRegistry<J, W>,
    r1: &GpuSkinningRegistry<J, W>,
    r2: &GpuSkinningRegistry<J, W>,
    mesh_id: MeshId,
    registered: Seq<J>,
    updated: Seq<J>,
)
    requires
        r1.skins() == r0.skins().insert(mesh_id.0, registered),
        r2.skins() == if r1.skins().contains_key(mesh_id.0) {
            r1.skins().insert(mesh_id.0, updated)
        } else {
            r1.skins()
        },
    ensures
        r2.skins().contains_key(mesh_id.0),
        r2.skins()[mesh_id.0] == updated,
{
}

} // verus!
