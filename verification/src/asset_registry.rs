//! Reference-counted registry of renderer asset handles.
//!
//! The registry tracks which chunks are using which assets, allowing safe
//! cleanup when chunks are evicted: an asset's handle is handed out when its
//! first user registers and handed back for removal when its last user
//! unregisters.
use ahash::AHashMap;
use vstd::prelude::*;

verus! {

#[verifier::external_type_specification]
#[verifier::external_body]
#[verifier::reject_recursive_types(K)]
#[verifier::reject_recursive_types(V)]
#[verifier::reject_recursive_types(S)]
pub struct ExAHashMap<K, V, S>(ahash::AHashMap<K, V, S>);

#[verifier::external_type_specification]
#[verifier::external_body]
pub struct ExAHashRandomState(ahash::RandomState);

/// What an asset map holds: asset id ↦ (raw handle, reference count).
pub uninterp spec fn ref_entries(m: AHashMap<u64, (u64, usize)>) -> Map<u64, (u64, usize)>;

/// `AHashMap::new`: an empty map (seeded from the crate's random source,
/// which affects only its iteration order).
#[verifier::external_body]
fn refs_new() -> (m: AHashMap<u64, (u64, usize)>)
    ensures
        ref_entries(m).dom() == Set::<u64>::empty(),
{
    AHashMap::new()
}

/// `AHashMap::get_mut`: a mutable reference to the entry under `k`, if any.
/// Claimed: `None` exactly when `k` is absent (map unchanged); otherwise the
/// reference starts at the stored entry and whatever it ends at is what the
/// map holds under `k` afterwards, the other entries being kept.
#[verifier::external_body]
fn refs_get_mut(m: &mut AHashMap<u64, (u64, usize)>, k: u64) -> (r: Option<&mut (u64, usize)>)
    ensures
        match r {
            Some(e) => {
                &&& ref_entries(*old(m)).contains_key(k)
                &&& *e == ref_entries(*old(m))[k]
                &&& ref_entries(*final(m)) == ref_entries(*old(m)).insert(k, *final(e))
            },
            None => !ref_entries(*old(m)).contains_key(k) && ref_entries(*final(m)) == ref_entries(*old(m)),
        },
{
    m.get_mut(&k)
}

/// `AHashMap::insert`: the map afterwards holds `v` under `k`, the other
/// entries being kept.
#[verifier::external_body]
fn refs_insert(m: &mut AHashMap<u64, (u64, usize)>, k: u64, v: (u64, usize))
    ensures
        ref_entries(*final(m)) == ref_entries(*old(m)).insert(k, v),
{
    m.insert(k, v);
}

/// `AHashMap::remove`: the map afterwards lacks `k`, the other entries
/// being kept.
#[verifier::external_body]
fn refs_remove(m: &mut AHashMap<u64, (u64, usize)>, k: u64)
    ensures
        ref_entries(*final(m)) == ref_entries(*old(m)).remove(k),
{
    m.remove(&k);
}

/// `HashMap::len` through `AHashMap`'s `Deref`: the number of entries.
#[verifier::external_body]
fn refs_len(m: &AHashMap<u64, (u64, usize)>) -> (n: usize)
    ensures
        n == ref_entries(*m).len(),
{
    m.len()
}

/// `HashMap::clear` through `AHashMap`'s `DerefMut`: no entries afterwards.
#[verifier::external_body]
fn refs_clear(m: &mut AHashMap<u64, (u64, usize)>)
    ensures
        ref_entries(*final(m)).dom() == Set::<u64>::empty(),
{
    m.clear();
}

/// Handle to a mesh in the renderer.
#[derive(Debug, Clone, Copy, PartialEq, Eq, Hash, Structural)]
pub struct MeshHandle(pub u64);

/// Handle to a material in the renderer.
#[derive(Debug, Clone, Copy, PartialEq, Eq, Hash, Structural)]
pub struct MaterialHandle(pub u64);

/// Handle to a texture in the renderer.
#[derive(Debug, Clone, Copy, PartialEq, Eq, Hash, Structural)]
pub struct TextureHandle(pub u64);

/// Handle to an object in the renderer.
#[derive(Debug, Clone, Copy, PartialEq, Eq, Hash, Structural)]
pub struct ObjectHandle(pub u64);

/// One kind of asset: every entry's count is at least one, every handle was
/// handed out before `next`, and no two assets share a handle.
pub open spec fn refs_wf(m: Map<u64, (u64, usize)>, next: u64) -> bool {
    &&& m.dom().finite()
    &&& 1 <= next
    &&& forall|k: u64| #[trigger] m.contains_key(k) ==> m[k].1 >= 1 && 1 <= m[k].0 < next
    &&& forall|a: u64, b: u64| #[trigger] m.contains_key(a) && #[trigger] m.contains_key(b) && a != b ==> m[a].0 != m[b].0
}

/// Whether another registration of `id` fits the counters.
pub open spec fn acquirable(m: Map<u64, (u64, usize)>, next: u64, id: u64) -> bool {
    if m.contains_key(id) {
        m[id].1 < usize::MAX
    } else {
        next < u64::MAX
    }
}

/// The entries after registering `id` once more: a known asset's count goes
/// up, a new asset gets handle `next` with count one.
pub open spec fn acquired(m: Map<u64, (u64, usize)>, next: u64, id: u64) -> Map<u64, (u64, usize)> {
    if m.contains_key(id) {
        m.insert(id, (m[id].0, (m[id].1 + 1) as usize))
    } else {
        m.insert(id, (next, 1usize))
    }
}

/// The entries after unregistering `id` once: the count goes down and the
/// entry leaves at zero; an unknown id changes nothing.
pub open spec fn released(m: Map<u64, (u64, usize)>, id: u64) -> Map<u64, (u64, usize)> {
    if m.contains_key(id) {
        if m[id].1 == 1 {
            m.remove(id)
        } else {
            m.insert(id, (m[id].0, (m[id].1 - 1) as usize))
        }
    } else {
        m
    }
}

/// Registering an asset and then unregistering it gives the entries back as
/// they were, and the handle it was given is the one the registration
/// returned only when that release removes it.
pub proof fn lemma_acquire_then_release(m: Map<u64, (u64, usize)>, next: u64, id: u64)
    requires
        refs_wf(m, next),
        acquirable(m, next, id),
    ensures
        released(acquired(m, next, id), id) == m,
        refs_wf(acquired(m, next, id), if m.contains_key(id) { next } else { (next + 1) as u64 }),
{
    let a = acquired(m, next, id);
    assert(released(a, id) =~= m);
    let next2: u64 = if m.contains_key(id) { next } else { (next + 1) as u64 };
    assert forall|x: u64, y: u64| #[trigger] a.contains_key(x) && #[trigger] a.contains_key(y) && x != y implies a[x].0 != a[y].0 by {
        if x != id && y != id {
            assert(m.contains_key(x) && m.contains_key(y));
        }
    }
}

/// The entries after unregistering `id` `n` times.
pub open spec fn released_times(m: Map<u64, (u64, usize)>, id: u64, n: nat) -> Map<u64, (u64, usize)>
    decreases n,
{
    if n == 0 {
        m
    } else {
        released(released_times(m, id, (n - 1) as nat), id)
    }
}

/// An asset registered by `c` users stays, with its handle, through the
/// first `c - 1` unregistrations, its count going down by one each time; the
/// `c`-th unregistration removes it, and only then is its handle handed back.
pub proof fn lemma_last_release_removes(m: Map<u64, (u64, usize)>, id: u64, n: nat)
    requires
        m.contains_key(id),
        m[id].1 >= 1,
        n <= m[id].1,
    ensures
        n < m[id].1 ==> released_times(m, id, n).contains_key(id)
            && released_times(m, id, n)[id] == (m[id].0, (m[id].1 - n) as usize),
        n == m[id].1 ==> !released_times(m, id, n).contains_key(id),
        forall|k: u64| k != id ==> (#[trigger] released_times(m, id, n).contains_key(k) <==> m.contains_key(k)),
        forall|k: u64| k != id && m.contains_key(k) ==> #[trigger] released_times(m, id, n)[k] == m[k],
    decreases n,
{
    if n > 0 {
        lemma_last_release_removes(m, id, (n - 1) as nat);
        let prev = released_times(m, id, (n - 1) as nat);
        assert forall|k: u64| k != id implies (#[trigger] released_times(m, id, n).contains_key(k) <==> m.contains_key(k)) by {
            assert(prev.contains_key(k) <==> m.contains_key(k));
        }
        assert forall|k: u64| k != id && m.contains_key(k) implies #[trigger] released_times(m, id, n)[k] == m[k] by {
            assert(prev.contains_key(k));
            assert(prev[k] == m[k]);
        }
    }
}

/// Registry for managing renderer asset handles with reference counting.
pub struct AssetRegistry {
    mesh_refs: AHashMap<u64, (u64, usize)>,
    material_refs: AHashMap<u64, (u64, usize)>,
    texture_refs: AHashMap<u64, (u64, usize)>,
    next_mesh_id: u64,
    next_material_id: u64,
    next_texture_id: u64,
}

impl AssetRegistry {
    /// Mesh id ↦ (raw handle, reference count).
    pub closed spec fn spec_meshes(&self) -> Map<u64, (u64, usize)> {
        ref_entries(self.mesh_refs)
    }

    /// Material id ↦ (raw handle, reference count).
    pub closed spec fn spec_materials(&self) -> Map<u64, (u64, usize)> {
        ref_entries(self.material_refs)
    }

    /// Texture id ↦ (raw handle, reference count).
    pub closed spec fn spec_textures(&self) -> Map<u64, (u64, usize)> {
        ref_entries(self.texture_refs)
    }

    /// The next fresh raw handle of meshes, materials and textures.
    pub closed spec fn spec_next(&self) -> (u64, u64, u64) {
        (self.next_mesh_id, self.next_material_id, self.next_texture_id)
    }

    pub open spec fn wf(&self) -> bool {
        &&& refs_wf(self.spec_meshes(), self.spec_next().0)
        &&& refs_wf(self.spec_materials(), self.spec_next().1)
        &&& refs_wf(self.spec_textures(), self.spec_next().2)
    }

    /// Create a new empty asset registry.
    pub fn new() -> (r: Self)
        ensures
            r.wf(),
            r.spec_meshes() == Map::<u64, (u64, usize)>::empty(),
            r.spec_materials() == Map::<u64, (u64, usize)>::empty(),
            r.spec_textures() == Map::<u64, (u64, usize)>::empty(),
            r.spec_next() == (1u64, 1u64, 1u64),
    {
        let r = AssetRegistry {
            mesh_refs: refs_new(),
            material_refs: refs_new(),
            texture_refs: refs_new(),
            next_mesh_id: 1,
            next_material_id: 1,
            next_texture_id: 1,
        };
        proof {
            assert(r.spec_meshes() =~= Map::<u64, (u64, usize)>::empty());
            assert(r.spec_materials() =~= Map::<u64, (u64, usize)>::empty());
            assert(r.spec_textures() =~= Map::<u64, (u64, usize)>::empty());
        }
        r
    }

    /// Count one more user of asset `id`; returns its raw handle and whether
    /// the asset is new.
    fn acquire(refs: &mut AHashMap<u64, (u64, usize)>, next: &mut u64, id: u64) -> (r: (u64, bool))
        requires
            refs_wf(ref_entries(*old(refs)), *old(next)),
            acquirable(ref_entries(*old(refs)), *old(next), id),
        ensures
            ref_entries(*final(refs)) == acquired(ref_entries(*old(refs)), *old(next), id),
            r.1 == !ref_entries(*old(refs)).contains_key(id),
            r.1 ==> r.0 == *old(next) && *final(next) == *old(next) + 1,
            !r.1 ==> r.0 == ref_entries(*old(refs))[id].0 && *final(next) == *old(next),
            refs_wf(ref_entries(*final(refs)), *final(next)),
    {
        proof {
            lemma_acquire_then_release(ref_entries(*refs), *next, id);
        }
        match refs_get_mut(refs, id) {
            Some(entry) => {
                entry.1 = entry.1 + 1;
                (entry.0, false)
            },
            None => {
                let handle = *next;
                *next = *next + 1;
                refs_insert(refs, id, (handle, 1));
                (handle, true)
            },
        }
    }

    /// Count one user fewer of asset `id`; returns its raw handle when that
    /// was the last user (the entry is then gone).
    fn release(refs: &mut AHashMap<u64, (u64, usize)>, next: u64, id: u64) -> (r: Option<u64>)
        requires
            refs_wf(ref_entries(*old(refs)), next),
        ensures
            ref_entries(*final(refs)) == released(ref_entries(*old(refs)), id),
            r == (if ref_entries(*old(refs)).contains_key(id) && ref_entries(*old(refs))[id].1 == 1 {
                Some(ref_entries(*old(refs))[id].0)
            } else {
                None
            }),
            refs_wf(ref_entries(*final(refs)), next),
    {
        let ghost m = ref_entries(*refs);
        match refs_get_mut(refs, id) {
            Some(entry) => {
                entry.1 = entry.1 - 1;
                if entry.1 == 0 {
                    let handle = entry.0;
                    refs_remove(refs, id);
                    proof {
                        assert(ref_entries(*refs) =~= released(m, id));
                    }
                    return Some(handle);
                }
                None
            },
            None => None,
        }
    }

    /// Register or increment reference to a mesh.
    /// Returns the handle and whether it's newly created.
    pub fn register_mesh(&mut self, mesh_id: u64) -> (r: (MeshHandle, bool))
        requires
            old(self).wf(),
            acquirable(old(self).spec_meshes(), old(self).spec_next().0, mesh_id),
        ensures
            final(self).wf(),
            final(self).spec_meshes() == acquired(old(self).spec_meshes(), old(self).spec_next().0, mesh_id),
            r.1 == !old(self).spec_meshes().contains_key(mesh_id),
            r.0.0 == final(self).spec_meshes()[mesh_id].0,
            final(self).spec_next().0 == if r.1 { old(self).spec_next().0 + 1 } else { old(self).spec_next().0 as int },
            final(self).spec_next().1 == old(self).spec_next().1,
            final(self).spec_next().2 == old(self).spec_next().2,
            final(self).spec_materials() == old(self).spec_materials(),
            final(self).spec_textures() == old(self).spec_textures(),
    {
        let (h, is_new) = Self::acquire(&mut self.mesh_refs, &mut self.next_mesh_id, mesh_id);
        (MeshHandle(h), is_new)
    }

    /// Unregister or decrement reference to a mesh.
    /// Returns the handle when the mesh should be removed (count reached 0).
    pub fn unregister_mesh(&mut self, mesh_id: u64) -> (r: Option<MeshHandle>)
        requires
            old(self).wf(),
        ensures
            final(self).wf(),
            final(self).spec_meshes() == released(old(self).spec_meshes(), mesh_id),
            r == (if old(self).spec_meshes().contains_key(mesh_id) && old(self).spec_meshes()[mesh_id].1 == 1 {
                Some(MeshHandle(old(self).spec_meshes()[mesh_id].0))
            } else {
                None
            }),
            final(self).spec_next() == old(self).spec_next(),
            final(self).spec_materials() == old(self).spec_materials(),
            final(self).spec_textures() == old(self).spec_textures(),
    {
        match Self::release(&mut self.mesh_refs, self.next_mesh_id, mesh_id) {
            Some(h) => Some(MeshHandle(h)),
            None => None,
        }
    }

    /// Register or increment reference to a material.
    pub fn register_material(&mut self, material_id: u64) -> (r: (MaterialHandle, bool))
        requires
            old(self).wf(),
            acquirable(old(self).spec_materials(), old(self).spec_next().1, material_id),
        ensures
            final(self).wf(),
            final(self).spec_materials() == acquired(old(self).spec_materials(), old(self).spec_next().1, material_id),
            r.1 == !old(self).spec_materials().contains_key(material_id),
            r.0.0 == final(self).spec_materials()[material_id].0,
            final(self).spec_next().1 == if r.1 { old(self).spec_next().1 + 1 } else { old(self).spec_next().1 as int },
            final(self).spec_next().0 == old(self).spec_next().0,
            final(self).spec_next().2 == old(self).spec_next().2,
            final(self).spec_meshes() == old(self).spec_meshes(),
            final(self).spec_textures() == old(self).spec_textures(),
    {
        let (h, is_new) = Self::acquire(&mut self.material_refs, &mut self.next_material_id, material_id);
        (MaterialHandle(h), is_new)
    }

    /// Unregister or decrement reference to a material.
    pub fn unregister_material(&mut self, material_id: u64) -> (r: Option<MaterialHandle>)
        requires
            old(self).wf(),
        ensures
            final(self).wf(),
            final(self).spec_materials() == released(old(self).spec_materials(), material_id),
            r == (if old(self).spec_materials().contains_key(material_id) && old(self).spec_materials()[material_id].1 == 1 {
                Some(MaterialHandle(old(self).spec_materials()[material_id].0))
            } else {
                None
            }),
            final(self).spec_next() == old(self).spec_next(),
            final(self).spec_meshes() == old(self).spec_meshes(),
            final(self).spec_textures() == old(self).spec_textures(),
    {
        match Self::release(&mut self.material_refs, self.next_material_id, material_id) {
            Some(h) => Some(MaterialHandle(h)),
            None => None,
        }
    }

    /// Register or increment reference to a texture.
    pub fn register_texture(&mut self, texture_id: u64) -> (r: (TextureHandle, bool))
        requires
            old(self).wf(),
            acquirable(old(self).spec_textures(), old(self).spec_next().2, texture_id),
        ensures
            final(self).wf(),
            final(self).spec_textures() == acquired(old(self).spec_textures(), old(self).spec_next().2, texture_id),
            r.1 == !old(self).spec_textures().contains_key(texture_id),
            r.0.0 == final(self).spec_textures()[texture_id].0,
            final(self).spec_next().2 == if r.1 { old(self).spec_next().2 + 1 } else { old(self).spec_next().2 as int },
            final(self).spec_next().0 == old(self).spec_next().0,
            final(self).spec_next().1 == old(self).spec_next().1,
            final(self).spec_meshes() == old(self).spec_meshes(),
            final(self).spec_materials() == old(self).spec_materials(),
    {
        let (h, is_new) = Self::acquire(&mut self.texture_refs, &mut self.next_texture_id, texture_id);
        (TextureHandle(h), is_new)
    }

    /// Unregister or decrement reference to a texture.
    pub fn unregister_texture(&mut self, texture_id: u64) -> (r: Option<TextureHandle>)
        requires
            old(self).wf(),
        ensures
            final(self).wf(),
            final(self).spec_textures() == released(old(self).spec_textures(), texture_id),
            r == (if old(self).spec_textures().contains_key(texture_id) && old(self).spec_textures()[texture_id].1 == 1 {
                Some(TextureHandle(old(self).spec_textures()[texture_id].0))
            } else {
                None
            }),
            final(self).spec_next() == old(self).spec_next(),
            final(self).spec_meshes() == old(self).spec_meshes(),
            final(self).spec_materials() == old(self).spec_materials(),
    {
        match Self::release(&mut self.texture_refs, self.next_texture_id, texture_id) {
            Some(h) => Some(TextureHandle(h)),
            None => None,
        }
    }

    /// Get current mesh count.
    pub fn mesh_count(&self) -> (n: usize)
        ensures
            n == self.spec_meshes().len(),
    {
        refs_len(&self.mesh_refs)
    }

    /// Get current material count.
    pub fn material_count(&self) -> (n: usize)
        ensures
            n == self.spec_materials().len(),
    {
        refs_len(&self.material_refs)
    }

    /// Get current texture count.
    pub fn texture_count(&self) -> (n: usize)
        ensures
            n == self.spec_textures().len(),
    {
        refs_len(&self.texture_refs)
    }

    /// Clear all asset references (handle counters carry on).
    pub fn clear(&mut self)
        requires
            old(self).wf(),
        ensures
            final(self).wf(),
            final(self).spec_meshes() == Map::<u64, (u64, usize)>::empty(),
            final(self).spec_materials() == Map::<u64, (u64, usize)>::empty(),
            final(self).spec_textures() == Map::<u64, (u64, usize)>::empty(),
            final(self).spec_next() == old(self).spec_next(),
    {
        refs_clear(&mut self.mesh_refs);
        refs_clear(&mut self.material_refs);
        refs_clear(&mut self.texture_refs);
        proof {
            assert(self.spec_meshes() =~= Map::<u64, (u64, usize)>::empty());
            assert(self.spec_materials() =~= Map::<u64, (u64, usize)>::empty());
            assert(self.spec_textures() =~= Map::<u64, (u64, usize)>::empty());
        }
    }
}

impl Default for AssetRegistry {
    fn default() -> (r: Self)
        ensures
            r.wf(),
            r.spec_meshes() == Map::<u64, (u64, usize)>::empty(),
            r.spec_materials() == Map::<u64, (u64, usize)>::empty(),
            r.spec_textures() == Map::<u64, (u64, usize)>::empty(),
            r.spec_next() == (1u64, 1u64, 1u64),
    {
        AssetRegistry::new()
    }
}

} // verus!
