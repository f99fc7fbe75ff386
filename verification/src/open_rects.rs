//! The rectangles that are still growing while the rows are scanned, found
//! by the plate they grow from.

use crate::plate::{Plate, PlateView};
use crate::rect::{Rect, RectView};
use vstd::prelude::*;

verus! {

/// The rectangles in progress, kept in the engine's hash map,
/// `bevy::utils::HashMap`, under the bounds of their plate.
///
/// Verus does not look inside: what the map holds is [`open_rects`], and
/// what the functions that reach into it do is stated, not proved.
#[verifier::external_body]
pub struct OpenRects {
    rects: bevy::utils::HashMap<(i32, i32), Rect>,
}

/// The rectangles that an [`OpenRects`] holds, each under its plate.
pub uninterp spec fn open_rects(growing: OpenRects) -> Map<PlateView, RectView>;

impl OpenRects {
    /// `HashMap::default` of hashbrown, through `bevy::utils::HashMap`: the
    /// new map holds nothing.
    #[verifier::external_body]
    pub(crate) fn new() -> (fresh: OpenRects)
        ensures
            open_rects(fresh) == (Map::<PlateView, RectView>::empty()),
    {
        OpenRects { rects: bevy::utils::HashMap::default() }
    }

    /// `HashMap::get` of hashbrown: the rectangle kept under `plate`, if
    /// there is one. The map is left as it was.
    #[verifier::external_body]
    pub(crate) fn get(&self, plate: Plate) -> (found: Option<Rect>)
        ensures
            match found {
                Some(rect) => open_rects(*self).contains_key(plate@) && rect@ == open_rects(
                    *self,
                )[plate@],
                None => !open_rects(*self).contains_key(plate@),
            },
    {
        self.rects.get(&(plate.left, plate.right)).copied()
    }

    /// `HashMap::insert` of hashbrown: afterwards `rect` is kept under
    /// `plate`, in place of what was kept there before, if anything; the
    /// other entries stay.
    #[verifier::external_body]
    pub(crate) fn insert(&mut self, plate: Plate, rect: Rect)
        ensures
            open_rects(*final(self)) == open_rects(*old(self)).insert(plate@, rect@),
    {
        self.rects.insert((plate.left, plate.right), rect);
    }

    /// `HashMap::remove` of hashbrown: takes out the rectangle kept under
    /// `plate` and returns it, or returns `None` where the map kept none; the
    /// other entries stay.
    #[verifier::external_body]
    pub(crate) fn remove(&mut self, plate: Plate) -> (removed: Option<Rect>)
        ensures
            open_rects(*final(self)) == open_rects(*old(self)).remove(plate@),
            match removed {
                Some(rect) => open_rects(*old(self)).contains_key(plate@) && rect@ == open_rects(
                    *old(self),
                )[plate@],
                None => !open_rects(*old(self)).contains_key(plate@),
            },
    {
        self.rects.remove(&(plate.left, plate.right))
    }
}

} // verus!
