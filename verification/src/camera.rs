//! Camera identifiers, camera kinds and the camera registry.
//!
//! The registry owns cameras of any payload type `C`; the geometry of a camera
//! (position, orientation, projection) is the payload's business.
use std::collections::HashMap;
use vstd::prelude::*;
use vstd::std_specs::hash::*;
use crate::keyed::{map_get_mut, map_keys};
use crate::render_view::RenderTargetHandle;

verus! {

broadcast use vstd::std_specs::hash::group_hash_axioms;

/// Unique identifier for a camera in the multi-camera system.
#[derive(Debug, Clone, Copy, PartialEq, Eq, Hash, Structural)]
pub struct CameraId(pub u64);

impl CameraId {
    /// Create a new camera ID from a simple index.
    pub fn new(index: u64) -> (id: Self)
        ensures
            id.0 == index,
    {
        CameraId(index)
    }
}

/// What a camera is for; decides in which simulation mode it renders.
#[derive(Debug, Clone, PartialEq, Eq)]
pub enum CameraKind {
    /// Free-flying perspective camera of the editor.
    EditorPerspective,
    /// Orthographic camera of the editor (top / side views, minimaps).
    EditorOrthographic,
    /// In-game camera, told apart by a free-form tag.
    GameCamera { tag: String },
}

/// Projection of a camera (real numbers as `f32` bits).
#[derive(Debug, Clone, Copy, PartialEq, Eq)]
pub enum Projection {
    /// Perspective projection with a vertical field of view (radians).
    Perspective { fov_y: u32, near: u32, far: u32 },
    /// Orthographic projection showing `height` world units vertically.
    Orthographic { height: u32, near: u32, far: u32 },
}

impl Projection {
    pub fn perspective(fov_y: u32, near: u32, far: u32) -> (p: Self)
        ensures
            p == (Projection::Perspective { fov_y, near, far }),
    {
        Projection::Perspective { fov_y, near, far }
    }

    pub fn orthographic(height: u32, near: u32, far: u32) -> (p: Self)
        ensures
            p == (Projection::Orthographic { height, near, far }),
    {
        Projection::Orthographic { height, near, far }
    }
}

/// A world-level camera as the orchestrator sees it. Real-valued fields are
/// `f32` bit patterns; the viewport is `[x, y, width, height]` normalised to
/// the render target.
#[derive(Debug, Clone)]
pub struct StratumCamera {
    /// Overwritten with the assigned id on registration.
    pub id: CameraId,
    pub kind: CameraKind,
    pub position: [u32; 3],
    pub yaw: u32,
    pub pitch: u32,
    pub projection: Projection,
    pub render_target: RenderTargetHandle,
    pub viewport: [u32; 4],
    /// Draw priority — lower renders first.
    pub priority: i32,
    /// Inactive cameras produce no view and drive no streaming.
    pub active: bool,
}

/// Errors related to camera operations.
#[derive(Debug)]
pub enum CameraError {
    CameraNotFound(CameraId),
    NoPrimaryCamera,
}

/// Registry for managing multiple cameras in the world partition system.
pub struct CameraRegistry<C> {
    /// Map of camera ID to camera instance.
    cameras: HashMap<u64, C>,
    /// Next camera ID to assign.
    next_id: u64,
    /// Primary camera ID (used for prioritized loading).
    primary_camera: Option<CameraId>,
}

impl<C> CameraRegistry<C> {
    /// The registered cameras, by raw id.
    pub closed spec fn spec_cameras(&self) -> Map<u64, C> {
        self.cameras@
    }

    /// The raw id that the next registration assigns.
    pub closed spec fn spec_next_id(&self) -> u64 {
        self.next_id
    }

    /// The primary camera's id, if any.
    pub closed spec fn spec_primary(&self) -> Option<CameraId> {
        self.primary_camera
    }

    /// Well-formedness: every id was handed out before `next_id`, and a
    /// primary camera exists exactly when some camera is registered, and is
    /// one of them.
    pub open spec fn wf(&self) -> bool {
        &&& forall|k: u64| #[trigger] self.spec_cameras().contains_key(k) ==> k < self.spec_next_id()
        &&& (self.spec_primary() is None <==> self.spec_cameras().is_empty())
        &&& (self.spec_primary() matches Some(p) ==> self.spec_cameras().contains_key(p.0))
        &&& self.spec_cameras().dom().finite()
    }

    /// Create a new empty camera registry.
    pub fn new() -> (r: Self)
        ensures
            r.wf(),
            r.spec_cameras() == Map::<u64, C>::empty(),
            r.spec_next_id() == 0,
            r.spec_primary() is None,
    {
        CameraRegistry { cameras: HashMap::new(), next_id: 0, primary_camera: None }
    }

    /// The id that the next call of [`Self::register_camera`] assigns.
    pub fn peek_next_id(&self) -> (id: CameraId)
        ensures
            id.0 == self.spec_next_id(),
    {
        CameraId(self.next_id)
    }

    /// Register a new camera and return its ID. The first camera registered
    /// into an empty registry becomes the primary camera.
    pub fn register_camera(&mut self, camera: C) -> (id: CameraId)
        requires
            old(self).wf(),
            old(self).spec_next_id() < u64::MAX,
        ensures
            final(self).wf(),
            id.0 == old(self).spec_next_id(),
            !old(self).spec_cameras().contains_key(id.0),
            final(self).spec_cameras() == old(self).spec_cameras().insert(id.0, camera),
            final(self).spec_next_id() == old(self).spec_next_id() + 1,
            final(self).spec_primary() == (match old(self).spec_primary() {
                Some(p) => Some(p),
                None => Some(id),
            }),
    {
        let id = CameraId(self.next_id);
        self.next_id = self.next_id + 1;
        self.cameras.insert(id.0, camera);
        if self.primary_camera.is_none() {
            self.primary_camera = Some(id);
        }
        id
    }

    /// Unregister a camera. When the primary camera leaves, another remaining
    /// camera (any of them) becomes primary, or none if the registry is empty.
    pub fn unregister_camera(&mut self, id: CameraId) -> (r: Option<C>)
        requires
            old(self).wf(),
        ensures
            final(self).wf(),
            r == (if old(self).spec_cameras().contains_key(id.0) {
                Some(old(self).spec_cameras()[id.0])
            } else {
                None
            }),
            final(self).spec_cameras() == old(self).spec_cameras().remove(id.0),
            final(self).spec_next_id() == old(self).spec_next_id(),
            old(self).spec_primary() != Some(id) ==> final(self).spec_primary()
                == old(self).spec_primary(),
    {
        let camera = self.cameras.remove(&id.0);
        if self.primary_camera == Some(id) {
            let ks = map_keys(&self.cameras);
            if ks.len() > 0 {
                proof {
                    assert(ks@.to_set().contains(ks@[0]));
                }
                self.primary_camera = Some(CameraId(ks[0]));
            } else {
                proof {
                    assert(self.cameras@.dom() =~= Set::<u64>::empty()) by {
                        assert forall|k: u64| !self.cameras@.dom().contains(k) by {
                            if self.cameras@.dom().contains(k) {
                                assert(ks@.to_set().contains(k));
                            }
                        }
                    }
                }
                self.primary_camera = None;
            }
        } else {
            proof {
                if let Some(p) = old(self).primary_camera {
                    assert(self.cameras@.contains_key(p.0));
                }
            }
        }
        camera
    }

    /// Get a camera by ID.
    pub fn get_camera(&self, id: CameraId) -> (r: Option<&C>)
        ensures
            r == (if self.spec_cameras().contains_key(id.0) {
                Some(&self.spec_cameras()[id.0])
            } else {
                None
            }),
    {
        self.cameras.get(&id.0)
    }

    /// Get a mutable reference to a camera by ID.
    pub fn get_camera_mut(&mut self, id: CameraId) -> (r: Option<&mut C>)
        requires
            old(self).wf(),
        ensures
            final(self).wf(),
            final(self).spec_next_id() == old(self).spec_next_id(),
            final(self).spec_primary() == old(self).spec_primary(),
            match r {
                Some(c) => {
                    &&& old(self).spec_cameras().contains_key(id.0)
                    &&& *c == old(self).spec_cameras()[id.0]
                    &&& final(self).spec_cameras() == old(self).spec_cameras().insert(id.0, *final(c))
                },
                None => {
                    &&& !old(self).spec_cameras().contains_key(id.0)
                    &&& final(self).spec_cameras() == old(self).spec_cameras()
                },
            },
    {
        map_get_mut(&mut self.cameras, id.0)
    }

    /// Get the primary camera.
    pub fn primary_camera(&self) -> (r: Option<&C>)
        requires
            self.wf(),
        ensures
            r == (match self.spec_primary() {
                Some(p) => Some(&self.spec_cameras()[p.0]),
                None => None,
            }),
    {
        match self.primary_camera {
            Some(id) => self.cameras.get(&id.0),
            None => None,
        }
    }

    /// The primary camera's id, if any.
    pub fn primary_camera_id(&self) -> (r: Option<CameraId>)
        ensures
            r == self.spec_primary(),
    {
        self.primary_camera
    }

    /// Get a mutable reference to the primary camera.
    pub fn primary_camera_mut(&mut self) -> (r: Option<&mut C>)
        requires
            old(self).wf(),
        ensures
            final(self).wf(),
            final(self).spec_next_id() == old(self).spec_next_id(),
            final(self).spec_primary() == old(self).spec_primary(),
            match old(self).spec_primary() {
                Some(p) => r matches Some(c) && *c == old(self).spec_cameras()[p.0]
                    && final(self).spec_cameras() == old(self).spec_cameras().insert(p.0, *final(c)),
                None => r is None && final(self).spec_cameras() == old(self).spec_cameras(),
            },
    {
        match self.primary_camera {
            Some(id) => map_get_mut(&mut self.cameras, id.0),
            None => None,
        }
    }

    /// Set the primary camera; fails when no camera has that id.
    pub fn set_primary_camera(&mut self, id: CameraId) -> (r: Result<(), CameraError>)
        requires
            old(self).wf(),
        ensures
            final(self).wf(),
            final(self).spec_cameras() == old(self).spec_cameras(),
            final(self).spec_next_id() == old(self).spec_next_id(),
            old(self).spec_cameras().contains_key(id.0) ==> r is Ok && final(self).spec_primary()
                == Some(id),
            !old(self).spec_cameras().contains_key(id.0) ==> r == Err::<(), CameraError>(
                CameraError::CameraNotFound(id),
            ) && final(self).spec_primary() == old(self).spec_primary(),
    {
        if self.cameras.contains_key(&id.0) {
            self.primary_camera = Some(id);
            Ok(())
        } else {
            Err(CameraError::CameraNotFound(id))
        }
    }

    /// All registered cameras, in the registry's iteration order.
    pub fn cameras(&self) -> (r: Vec<&C>)
        ensures
            exists|ks: Seq<u64>|
                {
                    &&& ks.to_set() == self.spec_cameras().dom()
                    &&& ks.no_duplicates()
                    &&& ks.len() == r@.len()
                    &&& forall|i: int| 0 <= i < ks.len() ==> *r@[i] == self.spec_cameras()[#[trigger] ks[i]]
                },
    {
        let ks = map_keys(&self.cameras);
        let mut r: Vec<&C> = Vec::new();
        let mut i: usize = 0;
        while i < ks.len()
            invariant
                i <= ks@.len(),
                r@.len() == i,
                ks@.to_set() == self.cameras@.dom(),
                forall|j: int| 0 <= j < i ==> *r@[j] == self.cameras@[#[trigger] ks@[j]],
            decreases ks@.len() - i,
        {
            proof {
                assert(ks@.to_set().contains(ks@[i as int]));
            }
            let c = self.cameras.get(&ks[i]).unwrap();
            r.push(c);
            i = i + 1;
        }
        r
    }

    /// Get the number of registered cameras.
    pub fn camera_count(&self) -> (n: usize)
        ensures
            n == self.spec_cameras().len(),
    {
        self.cameras.len()
    }

    /// Get all camera IDs, each once.
    pub fn camera_ids(&self) -> (ids: Vec<CameraId>)
        ensures
            ids@.len() == self.spec_cameras().dom().len(),
            forall|i: int| 0 <= i < ids@.len() ==> self.spec_cameras().contains_key(#[trigger] ids@[i].0),
            forall|k: u64| self.spec_cameras().contains_key(k) ==> exists|i: int| 0 <= i < ids@.len() && #[trigger] ids@[i].0 == k,
            forall|i: int, j: int| 0 <= i < j < ids@.len() ==> ids@[i] != ids@[j],
    {
        let ks = map_keys(&self.cameras);
        let mut ids: Vec<CameraId> = Vec::new();
        let mut i: usize = 0;
        while i < ks.len()
            invariant
                i <= ks@.len(),
                ids@.len() == i,
                forall|j: int| 0 <= j < i ==> #[trigger] ids@[j].0 == ks@[j],
            decreases ks@.len() - i,
        {
            ids.push(CameraId(ks[i]));
            i = i + 1;
        }
        proof {
            assert forall|k: u64| self.spec_cameras().contains_key(k) implies exists|i: int| 0 <= i < ids@.len() && #[trigger] ids@[i].0 == k by {
                assert(ks@.to_set().contains(k));
                let i = choose|i: int| 0 <= i < ks@.len() && ks@[i] == k;
                assert(ids@[i].0 == k);
            }
            assert forall|i: int| 0 <= i < ids@.len() implies self.spec_cameras().contains_key(#[trigger] ids@[i].0) by {
                assert(ks@.to_set().contains(ks@[i]));
            }
            assert forall|i: int, j: int| 0 <= i < j < ids@.len() implies ids@[i] != ids@[j] by {
                assert(ids@[i].0 == ks@[i] && ids@[j].0 == ks@[j]);
            }
        }
        ids
    }
}

impl<C> Default for CameraRegistry<C> {
    fn default() -> (r: Self)
        ensures
            r.wf(),
            r.spec_cameras() == Map::<u64, C>::empty(),
            r.spec_next_id() == 0,
            r.spec_primary() is None,
    {
        Self::new()
    }
}

/// Registering a camera and then unregistering the id it was given hands the
/// camera back and restores the registry's camera map; ids are never reused.
pub proof fn lemma_register_then_unregister<C>(
    before: Map<u64, C>,
    next: u64,
    camera: C,
)
    requires
        forall|k: u64| #[trigger] before.contains_key(k) ==> k < next,
    ensures
        !before.contains_key(next),
        before.insert(next, camera).remove(next) == before,
        before.insert(next, camera)[next] == camera,
{
    assert(before.insert(next, camera).remove(next) =~= before);
}

} // verus!
