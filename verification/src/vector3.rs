use vstd::prelude::*;

verus! {

/// A plain three-component vector, the element shape serialized into GPU
/// buffers. The scalar type is generic; the buffer layer instantiates it
/// with `u32` bit patterns.
#[derive(Clone, Copy, Debug, PartialEq, Eq, Structural)]
pub struct Vector3<T> {
    pub x: T,
    pub y: T,
    pub z: T,
}

impl<T> Vector3<T> {
    /// Build a vector from its three components.
    pub fn new(x: T, y: T, z: T) -> (r: Vector3<T>)
        ensures
            r.x == x,
            r.y == y,
            r.z == z,
    {
        Vector3 { x, y, z }
    }

    /// The components in declaration order.
    pub fn into_array(self) -> (r: [T; 3])
        ensures
            r[0] == self.x,
            r[1] == self.y,
            r[2] == self.z,
    {
        [self.x, self.y, self.z]
    }

    /// Build a vector from an array of its components.
    pub fn from_array(a: [T; 3]) -> (r: Vector3<T>)
        where T: Copy,
        ensures
            r.x == a[0],
            r.y == a[1],
            r.z == a[2],
    {
        Vector3 { x: a[0], y: a[1], z: a[2] }
    }
}

impl Vector3<u32> {
    /// Component-wise sum.
    pub fn add(self, rhs: Vector3<u32>) -> (r: Vector3<u32>)
        requires
            self.x + rhs.x <= u32::MAX,
            self.y + rhs.y <= u32::MAX,
            self.z + rhs.z <= u32::MAX,
        ensures
            r.x == self.x + rhs.x,
            r.y == self.y + rhs.y,
            r.z == self.z + rhs.z,
    {
        Vector3 { x: self.x + rhs.x, y: self.y + rhs.y, z: self.z + rhs.z }
    }

    /// Component-wise difference.
    pub fn sub(self, rhs: Vector3<u32>) -> (r: Vector3<u32>)
        requires
            rhs.x <= self.x,
            rhs.y <= self.y,
            rhs.z <= self.z,
        ensures
            r.x == self.x - rhs.x,
            r.y == self.y - rhs.y,
            r.z == self.z - rhs.z,
    {
        Vector3 { x: self.x - rhs.x, y: self.y - rhs.y, z: self.z - rhs.z }
    }

    /// Component-wise product.
    pub fn mul(self, rhs: Vector3<u32>) -> (r: Vector3<u32>)
        requires
            self.x * rhs.x <= u32::MAX,
            self.y * rhs.y <= u32::MAX,
            self.z * rhs.z <= u32::MAX,
        ensures
            r.x == self.x * rhs.x,
            r.y == self.y * rhs.y,
            r.z == self.z * rhs.z,
    {
        Vector3 { x: self.x * rhs.x, y: self.y * rhs.y, z: self.z * rhs.z }
    }

    /// Component-wise quotient.
    pub fn div(self, rhs: Vector3<u32>) -> (r: Vector3<u32>)
        requires
            rhs.x != 0,
            rhs.y != 0,
            rhs.z != 0,
        ensures
            r.x == self.x / rhs.x,
            r.y == self.y / rhs.y,
            r.z == self.z / rhs.z,
    {
        Vector3 { x: self.x / rhs.x, y: self.y / rhs.y, z: self.z / rhs.z }
    }
}

} // verus!
