use vstd::prelude::*;

use crate::algebra::{Vec2, LIMIT};
use crate::geometry::Rect;

verus! {

/// A camera that follows a focus point at a fixed offset, centring it on a
/// screen of the given size.
pub struct Camera {
    pub(crate) pos: Vec2,
    pub(crate) rel_pos: Vec2,
    pub(crate) screen_size: Rect,
}

impl Camera {
    pub closed spec fn pos_spec(&self) -> Vec2 {
        self.pos
    }

    pub closed spec fn rel_pos_spec(&self) -> Vec2 {
        self.rel_pos
    }

    pub closed spec fn screen_size_spec(&self) -> Rect {
        self.screen_size
    }

    pub fn new(rel_pos: Vec2, screen_size: Rect) -> (r: Self)
        ensures
            r.pos_spec() == (Vec2 { x: 0, y: 0 }),
            r.rel_pos_spec() == rel_pos,
            r.screen_size_spec() == screen_size,
    {
        Camera { pos: Vec2 { x: 0, y: 0 }, rel_pos, screen_size }
    }

    /// The top-left corner of the visible area.
    pub fn pos(&self) -> (r: Vec2)
        ensures
            r == self.pos_spec(),
    {
        self.pos
    }

    pub fn rel_pos(&self) -> (r: Vec2)
        ensures
            r == self.rel_pos_spec(),
    {
        self.rel_pos
    }

    pub fn screen_size(&self) -> (r: Rect)
        ensures
            r == self.screen_size_spec(),
    {
        self.screen_size
    }

    /// Moves the camera so that `focus`, shifted by the offset, is at the
    /// centre of the screen.
    pub fn update(&mut self, focus: Vec2)
        requires
            focus.bounded(LIMIT * 4),
            old(self).rel_pos_spec().bounded(LIMIT * 4),
            0 <= old(self).screen_size_spec().width <= LIMIT * 4,
            0 <= old(self).screen_size_spec().height <= LIMIT * 4,
        ensures
            final(self).rel_pos_spec() == old(self).rel_pos_spec(),
            final(self).screen_size_spec() == old(self).screen_size_spec(),
            final(self).pos_spec().x == focus.x + old(self).rel_pos_spec().x - old(self).screen_size_spec().width / 2,
            final(self).pos_spec().y == focus.y + old(self).rel_pos_spec().y - old(self).screen_size_spec().height / 2,
    {
        self.pos.x = focus.x + self.rel_pos.x - self.screen_size.width / 2;
        self.pos.y = focus.y + self.rel_pos.y - self.screen_size.height / 2;
    }
}

} // verus!
