//! Render target handles — where a rendered view goes.
use vstd::prelude::*;

verus! {

/// Identifies a render output destination.
///
/// The integration layer resolves these handles to concrete texture views
/// before submitting to the renderer.
#[derive(Debug, Clone, PartialEq, Eq, Hash)]
pub enum RenderTargetHandle {
    /// The primary window surface (swapchain image).
    PrimarySurface,
    /// An offscreen texture identified by a logical name.
    /// Used for render-to-texture, reflections, portals, etc.
    OffscreenTexture(String),
    /// A numbered viewport slot for split-screen layouts.
    ViewportSlot(u32),
}

/// Whether two handles name the same target: same variant, and same name or
/// slot number.
pub open spec fn same_target(a: RenderTargetHandle, b: RenderTargetHandle) -> bool {
    match (a, b) {
        (RenderTargetHandle::PrimarySurface, RenderTargetHandle::PrimarySurface) => true,
        (RenderTargetHandle::OffscreenTexture(x), RenderTargetHandle::OffscreenTexture(y)) => x@ == y@,
        (RenderTargetHandle::ViewportSlot(x), RenderTargetHandle::ViewportSlot(y)) => x == y,
        _ => false,
    }
}

impl RenderTargetHandle {
    /// Whether `self` and `other` name the same target.
    pub fn same_as(&self, other: &RenderTargetHandle) -> (b: bool)
        ensures
            b == same_target(*self, *other),
    {
        match (self, other) {
            (RenderTargetHandle::PrimarySurface, RenderTargetHandle::PrimarySurface) => true,
            (RenderTargetHandle::OffscreenTexture(x), RenderTargetHandle::OffscreenTexture(y)) => *x == *y,
            (RenderTargetHandle::ViewportSlot(x), RenderTargetHandle::ViewportSlot(y)) => *x == *y,
            _ => false,
        }
    }
}

} // verus!
