//! What the pointer was seen to do, tick by tick.

use crate::vector::Vector2D;
use vstd::prelude::*;

verus! {

/// The pointer as it was last seen: where it is within the window, where it is
/// without regard to the window, and which buttons are down.
#[derive(Default, Copy, Clone, Debug)]
pub struct Mouse<T> {
    pub pos: Vector2D<T>,
    pub abs_pos: Vector2D<T>,
    pub left: bool,
    pub middle: bool,
    pub right: bool,
}

impl<T: Copy> Mouse<T> {
    /// Takes in one reading of the pointer. A position that could not be read
    /// leaves the last one in place; the buttons are taken as read.
    pub fn refresh(
        &mut self,
        clamped: Option<(T, T)>,
        passed: Option<(T, T)>,
        left: bool,
        middle: bool,
        right: bool,
    )
        ensures
            final(self).pos == match clamped {
                Some(at) => Vector2D { x: at.0, y: at.1 },
                None => old(self).pos,
            },
            final(self).abs_pos == match passed {
                Some(at) => Vector2D { x: at.0, y: at.1 },
                None => old(self).abs_pos,
            },
            final(self).left == left,
            final(self).middle == middle,
            final(self).right == right,
    {
        if let Some(at) = clamped {
            self.pos.x = at.0;
            self.pos.y = at.1;
        }
        if let Some(at) = passed {
            self.abs_pos.x = at.0;
            self.abs_pos.y = at.1;
        }
        self.left = left;
        self.middle = middle;
        self.right = right;
    }
}

/// All that a tick takes in from outside.
#[derive(Default, Copy, Clone, Debug)]
pub struct Input<T> {
    pub mouse: Mouse<T>,
}

impl<T: Copy> Input<T> {
    /// Takes in one reading of the pointer, as `Mouse::refresh` does.
    pub fn refresh(
        &mut self,
        clamped: Option<(T, T)>,
        passed: Option<(T, T)>,
        left: bool,
        middle: bool,
        right: bool,
    )
        ensures
            final(self).mouse.pos == match clamped {
                Some(at) => Vector2D { x: at.0, y: at.1 },
                None => old(self).mouse.pos,
            },
            final(self).mouse.abs_pos == match passed {
                Some(at) => Vector2D { x: at.0, y: at.1 },
                None => old(self).mouse.abs_pos,
            },
            final(self).mouse.left == left,
            final(self).mouse.middle == middle,
            final(self).mouse.right == right,
    {
        self.mouse.refresh(clamped, passed, left, middle, right);
    }
}

} // verus!
