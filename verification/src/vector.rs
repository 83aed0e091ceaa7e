//! A pair of components with component-wise arithmetic.
//!
//! The arithmetic is that of the component type: each operation asks what the
//! type's own operator asks of its operands (for the integers, that the result
//! fits), and returns what the operator returns wherever the type has a
//! specified operator.

use std::ops::{Add, Div, Mul, Sub};
use vstd::prelude::*;
use vstd::std_specs::ops::{AddSpec, DivSpec, MulSpec, SubSpec};

verus! {

/// Two components of one type. A value is nothing but its components.
#[derive(Default, Copy, Clone, Debug)]
pub struct Vector2D<T> {
    pub x: T,
    pub y: T,
}

impl<T> Vector2D<T> {
    /// The vector of the components `x` and `y`.
    pub fn new(x: T, y: T) -> (r: Self)
        ensures
            r.x == x,
            r.y == y,
    {
        Vector2D { x, y }
    }
}

impl<T> Vector2D<T> where T: Copy + Add<Output = T> {
    /// The component-wise sum of `self` and `other`.
    pub fn add(&self, other: Vector2D<T>) -> (r: Vector2D<T>)
        requires
            self.x.add_req(other.x),
            self.y.add_req(other.y),
        ensures
            T::obeys_add_spec() ==> r.x == self.x.add_spec(other.x),
            T::obeys_add_spec() ==> r.y == self.y.add_spec(other.y),
    {
        Vector2D { x: self.x + other.x, y: self.y + other.y }
    }

    /// `value` added to each component.
    pub fn vadd(&self, value: T) -> (r: Vector2D<T>)
        requires
            self.x.add_req(value),
            self.y.add_req(value),
        ensures
            T::obeys_add_spec() ==> r.x == self.x.add_spec(value),
            T::obeys_add_spec() ==> r.y == self.y.add_spec(value),
    {
        Vector2D { x: self.x + value, y: self.y + value }
    }
}

impl<T> Vector2D<T> where T: Copy + Sub<Output = T> {
    /// The component-wise difference, `self` less `other`.
    pub fn sub(&self, other: Vector2D<T>) -> (r: Vector2D<T>)
        requires
            self.x.sub_req(other.x),
            self.y.sub_req(other.y),
        ensures
            T::obeys_sub_spec() ==> r.x == self.x.sub_spec(other.x),
            T::obeys_sub_spec() ==> r.y == self.y.sub_spec(other.y),
    {
        Vector2D { x: self.x - other.x, y: self.y - other.y }
    }

    /// `value` taken from each component.
    pub fn vsub(&self, value: T) -> (r: Vector2D<T>)
        requires
            self.x.sub_req(value),
            self.y.sub_req(value),
        ensures
            T::obeys_sub_spec() ==> r.x == self.x.sub_spec(value),
            T::obeys_sub_spec() ==> r.y == self.y.sub_spec(value),
    {
        Vector2D { x: self.x - value, y: self.y - value }
    }
}

impl<T> Vector2D<T> where T: Copy + Mul<Output = T> {
    /// The component-wise product of `self` and `other`.
    pub fn mul(&self, other: Vector2D<T>) -> (r: Vector2D<T>)
        requires
            self.x.mul_req(other.x),
            self.y.mul_req(other.y),
        ensures
            T::obeys_mul_spec() ==> r.x == self.x.mul_spec(other.x),
            T::obeys_mul_spec() ==> r.y == self.y.mul_spec(other.y),
    {
        Vector2D { x: self.x * other.x, y: self.y * other.y }
    }

    /// Each component scaled by `value`.
    pub fn vmul(&self, value: T) -> (r: Vector2D<T>)
        requires
            self.x.mul_req(value),
            self.y.mul_req(value),
        ensures
            T::obeys_mul_spec() ==> r.x == self.x.mul_spec(value),
            T::obeys_mul_spec() ==> r.y == self.y.mul_spec(value),
    {
        Vector2D { x: self.x * value, y: self.y * value }
    }
}

impl<T> Vector2D<T> where T: Copy + Div<Output = T> {
    /// The component-wise quotient, `self` over `other`.
    pub fn div(&self, other: Vector2D<T>) -> (r: Vector2D<T>)
        requires
            self.x.div_req(other.x),
            self.y.div_req(other.y),
        ensures
            T::obeys_div_spec() ==> r.x == self.x.div_spec(other.x),
            T::obeys_div_spec() ==> r.y == self.y.div_spec(other.y),
    {
        Vector2D { x: self.x / other.x, y: self.y / other.y }
    }

    /// Each component divided by `value`.
    pub fn vdiv(&self, value: T) -> (r: Vector2D<T>)
        requires
            self.x.div_req(value),
            self.y.div_req(value),
        ensures
            T::obeys_div_spec() ==> r.x == self.x.div_spec(value),
            T::obeys_div_spec() ==> r.y == self.y.div_spec(value),
    {
        Vector2D { x: self.x / value, y: self.y / value }
    }
}

impl<T> Vector2D<T> where T: Copy + Sub<Output = T> {
    /// The step that leads from `self` to `other`: `other` less `self`,
    /// component by component.
    pub fn delta(&self, other: Vector2D<T>) -> (r: Vector2D<T>)
        requires
            other.x.sub_req(self.x),
            other.y.sub_req(self.y),
        ensures
            T::obeys_sub_spec() ==> r.x == other.x.sub_spec(self.x),
            T::obeys_sub_spec() ==> r.y == other.y.sub_spec(self.y),
    {
        Vector2D { x: other.x - self.x, y: other.y - self.y }
    }
}

} // verus!
