use vstd::prelude::*;

verus! {

/// A plain two-component vector, the element shape serialized into GPU
/// buffers. The scalar type is generic; the buffer layer instantiates it
/// with `u32` bit patterns.
#[derive(Clone, Copy, Debug, PartialEq, Eq, Structural)]
pub struct Vector2<T> {
    pub x: T,
    pub y: T,
}

impl<T> Vector2<T> {
    /// Build a vector from its two components.
    pub fn new(x: T, y: T) -> (r: Vector2<T>)
        ensures
            r.x == x,
            r.y == y,
    {
        Vector2 { x, y }
    }

    /// The components in declaration order.
    pub fn into_array(self) -> (r: [T; 2])
        ensures
            r[0] == self.x,
            r[1] == self.y,
    {
        [self.x, self.y]
    }

    /// Build a vector from an array of its components.
    pub fn from_array(a: [T; 2]) -> (r: Vector2<T>)
        where T: Copy,
        ensures
            r.x == a[0],
            r.y == a[1],
    {
        Vector2 { x: a[0], y: a[1] }
    }
}

impl Vector2<u32> {
    /// Component-wise sum.
    pub fn add(self, rhs: Vector2<u32>) -> (r: Vector2<u32>)
        requires
            self.x + rhs.x <= u32::MAX,
            self.y + rhs.y <= u32::MAX,
        ensures
            r.x == self.x + rhs.x,
            r.y == self.y + rhs.y,
    {
        Vector2 { x: self.x + rhs.x, y: self.y + rhs.y }
    }

    /// Component-wise sum, in place.
    pub fn add_assign(&mut self, rhs: Vector2<u32>)
        requires
            old(self).x + rhs.x <= u32::MAX,
            old(self).y + rhs.y <= u32::MAX,
        ensures
            final(self).x == old(self).x + rhs.x,
            final(self).y == old(self).y + rhs.y,
    {
        self.x = self.x + rhs.x;
        self.y = self.y + rhs.y;
    }

    /// Component-wise difference.
    pub fn sub(self, rhs: Vector2<u32>) -> (r: Vector2<u32>)
        requires
            rhs.x <= self.x,
            rhs.y <= self.y,
        ensures
            r.x == self.x - rhs.x,
            r.y == self.y - rhs.y,
    {
        Vector2 { x: self.x - rhs.x, y: self.y - rhs.y }
    }

    /// Component-wise difference, in place.
    pub fn sub_assign(&mut self, rhs: Vector2<u32>)
        requires
            rhs.x <= old(self).x,
            rhs.y <= old(self).y,
        ensures
            final(self).x == old(self).x - rhs.x,
            final(self).y == old(self).y - rhs.y,
    {
        self.x = self.x - rhs.x;
        self.y = self.y - rhs.y;
    }

    /// Component-wise product.
    pub fn mul(self, rhs: Vector2<u32>) -> (r: Vector2<u32>)
        requires
            self.x * rhs.x <= u32::MAX,
            self.y * rhs.y <= u32::MAX,
        ensures
            r.x == self.x * rhs.x,
            r.y == self.y * rhs.y,
    {
        Vector2 { x: self.x * rhs.x, y: self.y * rhs.y }
    }

    /// Component-wise product, in place.
    pub fn mul_assign(&mut self, rhs: Vector2<u32>)
        requires
            old(self).x * rhs.x <= u32::MAX,
            old(self).y * rhs.y <= u32::MAX,
        ensures
            final(self).x == old(self).x * rhs.x,
            final(self).y == old(self).y * rhs.y,
    {
        self.x = self.x * rhs.x;
        self.y = self.y * rhs.y;
    }

    /// Component-wise quotient.
    pub fn div(self, rhs: Vector2<u32>) -> (r: Vector2<u32>)
        requires
            rhs.x != 0,
            rhs.y != 0,
        ensures
            r.x == self.x / rhs.x,
            r.y == self.y / rhs.y,
    {
        Vector2 { x: self.x / rhs.x, y: self.y / rhs.y }
    }

    /// Component-wise quotient, in place.
    pub fn div_assign(&mut self, rhs: Vector2<u32>)
        requires
            rhs.x != 0,
            rhs.y != 0,
        ensures
            final(self).x == old(self).x / rhs.x,
            final(self).y == old(self).y / rhs.y,
    {
        self.x = self.x / rhs.x;
        self.y = self.y / rhs.y;
    }
}

} // verus!
