//! What the host asks of a thing it simulates: to take input, to advance by a
//! span of time, and to draw itself.

use crate::frame::Frame;
use crate::input::Input;
use vstd::prelude::*;

verus! {

/// Something that takes in what the pointer does.
pub trait Inputable<T> {
    fn handle_input(&mut self, input: Input<T>);
}

/// Something that advances by a span of time `dt`.
pub trait Updatable<T> {
    fn update(&mut self, dt: T);
}

/// Something that draws itself into a frame.
pub trait Drawable {
    fn draw(&self, frame: &mut Frame);
}

/// Something the host simulates: it takes input, advances and draws itself.
pub trait Entity<T>: Inputable<T> + Updatable<T> + Drawable {

}

} // verus!
