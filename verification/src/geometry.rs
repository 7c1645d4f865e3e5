//! Vectors of two and three components.

use core::ops::{Add, BitXor, Mul, Sub};
use vstd::prelude::*;

verus! {

/// The scalar types that vectors are made of.
pub trait VectorTrait<T>: Copy where T: Copy {

}

impl VectorTrait<i32> for i32 {

}

/// Access to the first two coordinates of a position, whatever else it
/// carries.
pub trait XYAxis<T: Copy> {
    spec fn spec_x(&self) -> T;

    spec fn spec_y(&self) -> T;

    fn get_x(&self) -> (x: T)
        ensures
            x == self.spec_x(),
    ;

    fn get_y(&self) -> (y: T)
        ensures
            y == self.spec_y(),
    ;
}

/// Whether an integer fits in 32 bits, signed.
pub open spec fn fits_i32(v: int) -> bool {
    i32::MIN <= v <= i32::MAX
}

/// A vector of two components.
#[derive(Copy, Clone, Debug)]
pub struct Vector2<T: VectorTrait<T>> {
    pub x: T,
    pub y: T,
}

impl<T: VectorTrait<T>> Vector2<T> {
    pub fn new(x: T, y: T) -> (v: Self)
        ensures
            v == (Vector2 { x, y }),
    {
        Vector2 { x, y }
    }

    /// Exchanges the two vectors.
    pub fn swap(&mut self, rhs: &mut Self)
        ensures
            *final(self) == *old(rhs),
            *final(rhs) == *old(self),
    {
        core::mem::swap(&mut self.x, &mut rhs.x);
        core::mem::swap(&mut self.y, &mut rhs.y);
    }

    /// Exchanges the two components.
    pub fn swap_xy(&mut self)
        ensures
            *final(self) == (Vector2 { x: old(self).y, y: old(self).x }),
    {
        core::mem::swap(&mut self.x, &mut self.y);
    }

    pub fn get_x(&self) -> (x: T)
        ensures
            x == self.x,
    {
        self.x
    }

    pub fn get_y(&self) -> (y: T)
        ensures
            y == self.y,
    {
        self.y
    }

    pub fn get_x_as_mut(&mut self) -> (x: &mut T)
        ensures
            *x == old(self).x,
            *final(self) == (Vector2 { x: *final(x), y: old(self).y }),
    {
        &mut self.x
    }

    pub fn get_y_as_mut(&mut self) -> (y: &mut T)
        ensures
            *y == old(self).y,
            *final(self) == (Vector2 { x: old(self).x, y: *final(y) }),
    {
        &mut self.y
    }
}

impl<T: VectorTrait<T>> XYAxis<T> for Vector2<T> {
    open spec fn spec_x(&self) -> T {
        self.x
    }

    open spec fn spec_y(&self) -> T {
        self.y
    }

    fn get_x(&self) -> (x: T) {
        self.x
    }

    fn get_y(&self) -> (y: T) {
        self.y
    }
}

impl Default for Vector2<i32> {
    fn default() -> (v: Self)
        ensures
            v == (Vector2 { x: 0i32, y: 0i32 }),
    {
        Vector2 { x: 0, y: 0 }
    }
}

/// Component-wise sum.
impl Add for Vector2<i32> {
    type Output = Self;

    fn add(self, rhs: Self) -> (sum: Self) {
        Vector2 { x: self.x + rhs.x, y: self.y + rhs.y }
    }
}

impl vstd::std_specs::ops::AddSpecImpl for Vector2<i32> {
    open spec fn obeys_add_spec() -> bool {
        true
    }

    open spec fn add_req(self, rhs: Self) -> bool {
        fits_i32(self.x + rhs.x) && fits_i32(self.y + rhs.y)
    }

    open spec fn add_spec(self, rhs: Self) -> Self {
        Vector2 { x: (self.x + rhs.x) as i32, y: (self.y + rhs.y) as i32 }
    }
}

/// Component-wise difference.
impl Sub for Vector2<i32> {
    type Output = Self;

    fn sub(self, rhs: Self) -> (difference: Self) {
        Vector2 { x: self.x - rhs.x, y: self.y - rhs.y }
    }
}

impl vstd::std_specs::ops::SubSpecImpl for Vector2<i32> {
    open spec fn obeys_sub_spec() -> bool {
        true
    }

    open spec fn sub_req(self, rhs: Self) -> bool {
        fits_i32(self.x - rhs.x) && fits_i32(self.y - rhs.y)
    }

    open spec fn sub_spec(self, rhs: Self) -> Self {
        Vector2 { x: (self.x - rhs.x) as i32, y: (self.y - rhs.y) as i32 }
    }
}

/// Dot product.
impl Mul for Vector2<i32> {
    type Output = i32;

    fn mul(self, rhs: Self) -> (dot: i32) {
        proof {
            lemma_product_bounds(self.x as int, rhs.x as int);
            lemma_product_bounds(self.y as int, rhs.y as int);
        }
        let dot: i64 = self.x as i64 * rhs.x as i64 + self.y as i64 * rhs.y as i64;
        dot as i32
    }
}

impl vstd::std_specs::ops::MulSpecImpl for Vector2<i32> {
    open spec fn obeys_mul_spec() -> bool {
        true
    }

    open spec fn mul_req(self, rhs: Self) -> bool {
        fits_i32(self.x * rhs.x + self.y * rhs.y)
    }

    open spec fn mul_spec(self, rhs: Self) -> i32 {
        (self.x * rhs.x + self.y * rhs.y) as i32
    }
}

/// Product with a scalar.
impl Mul<i32> for Vector2<i32> {
    type Output = Self;

    fn mul(self, rhs: i32) -> (scaled: Self) {
        Vector2 { x: self.x * rhs, y: self.y * rhs }
    }
}

impl vstd::std_specs::ops::MulSpecImpl<i32> for Vector2<i32> {
    open spec fn obeys_mul_spec() -> bool {
        true
    }

    open spec fn mul_req(self, rhs: i32) -> bool {
        fits_i32(self.x * rhs) && fits_i32(self.y * rhs)
    }

    open spec fn mul_spec(self, rhs: i32) -> Self {
        Vector2 { x: (self.x * rhs) as i32, y: (self.y * rhs) as i32 }
    }
}

pub type Vector2Int = Vector2<i32>;

/// A vector of three components.
#[derive(Copy, Clone, Debug)]
pub struct Vector3<T: VectorTrait<T>> {
    pub x: T,
    pub y: T,
    pub z: T,
}

impl<T: VectorTrait<T>> Vector3<T> {
    pub fn new(x: T, y: T, z: T) -> (v: Self)
        ensures
            v == (Vector3 { x, y, z }),
    {
        Vector3 { x, y, z }
    }

    pub fn get_x(&self) -> (x: T)
        ensures
            x == self.x,
    {
        self.x
    }

    pub fn get_y(&self) -> (y: T)
        ensures
            y == self.y,
    {
        self.y
    }

    pub fn get_z(&self) -> (z: T)
        ensures
            z == self.z,
    {
        self.z
    }

    pub fn get_x_as_mut(&mut self) -> (x: &mut T)
        ensures
            *x == old(self).x,
            *final(self) == (Vector3 { x: *final(x), y: old(self).y, z: old(self).z }),
    {
        &mut self.x
    }

    pub fn get_y_as_mut(&mut self) -> (y: &mut T)
        ensures
            *y == old(self).y,
            *final(self) == (Vector3 { x: old(self).x, y: *final(y), z: old(self).z }),
    {
        &mut self.y
    }

    pub fn get_z_as_mut(&mut self) -> (z: &mut T)
        ensures
            *z == old(self).z,
            *final(self) == (Vector3 { x: old(self).x, y: old(self).y, z: *final(z) }),
    {
        &mut self.z
    }
}

impl<T: VectorTrait<T>> XYAxis<T> for Vector3<T> {
    open spec fn spec_x(&self) -> T {
        self.x
    }

    open spec fn spec_y(&self) -> T {
        self.y
    }

    fn get_x(&self) -> (x: T) {
        self.x
    }

    fn get_y(&self) -> (y: T) {
        self.y
    }
}

impl Vector3<i32> {
    /// The sum of the squares of the components: the square of the
    /// vector's length.
    pub open spec fn spec_sum_of_squared(self) -> int {
        self.x * self.x + self.y * self.y + self.z * self.z
    }

    /// The sum of the squares of the components: the square of the
    /// vector's length.
    pub fn get_sum_of_squared(&self) -> (sum: i32)
        requires
            fits_i32(self.spec_sum_of_squared()),
        ensures
            sum == self.spec_sum_of_squared(),
    {
        proof {
            lemma_product_bounds(self.x as int, self.x as int);
            lemma_product_bounds(self.y as int, self.y as int);
            lemma_product_bounds(self.z as int, self.z as int);
        }
        let sum: i64 = self.x as i64 * self.x as i64 + self.y as i64 * self.y as i64 + self.z as i64
            * self.z as i64;
        sum as i32
    }
}

impl Default for Vector3<i32> {
    fn default() -> (v: Self)
        ensures
            v == (Vector3 { x: 0i32, y: 0i32, z: 0i32 }),
    {
        Vector3 { x: 0, y: 0, z: 0 }
    }
}

/// Dot product
impl Mul for Vector3<i32> {
    type Output = i32;

    fn mul(self, rhs: Self) -> (dot: i32) {
        proof {
            lemma_product_bounds(self.x as int, rhs.x as int);
            lemma_product_bounds(self.y as int, rhs.y as int);
            lemma_product_bounds(self.z as int, rhs.z as int);
        }
        let dot: i64 = self.x as i64 * rhs.x as i64 + self.y as i64 * rhs.y as i64 + self.z as i64
            * rhs.z as i64;
        dot as i32
    }
}

impl vstd::std_specs::ops::MulSpecImpl for Vector3<i32> {
    open spec fn obeys_mul_spec() -> bool {
        true
    }

    open spec fn mul_req(self, rhs: Self) -> bool {
        fits_i32(self.x * rhs.x + self.y * rhs.y + self.z * rhs.z)
    }

    open spec fn mul_spec(self, rhs: Self) -> i32 {
        (self.x * rhs.x + self.y * rhs.y + self.z * rhs.z) as i32
    }
}

/// Product with a scalar.
impl Mul<i32> for Vector3<i32> {
    type Output = Self;

    fn mul(self, rhs: i32) -> (scaled: Self) {
        Vector3 { x: self.x * rhs, y: self.y * rhs, z: self.z * rhs }
    }
}

impl vstd::std_specs::ops::MulSpecImpl<i32> for Vector3<i32> {
    open spec fn obeys_mul_spec() -> bool {
        true
    }

    open spec fn mul_req(self, rhs: i32) -> bool {
        fits_i32(self.x * rhs) && fits_i32(self.y * rhs) && fits_i32(self.z * rhs)
    }

    open spec fn mul_spec(self, rhs: i32) -> Self {
        Vector3 { x: (self.x * rhs) as i32, y: (self.y * rhs) as i32, z: (self.z * rhs) as i32 }
    }
}

impl Vector3<i32> {
    /// Multiplies the vector by a scalar, in place.
    pub fn mul_assign(&mut self, rhs: i32)
        requires
            fits_i32(old(self).x * rhs),
            fits_i32(old(self).y * rhs),
            fits_i32(old(self).z * rhs),
        ensures
            final(self).x == old(self).x * rhs,
            final(self).y == old(self).y * rhs,
            final(self).z == old(self).z * rhs,
    {
        self.x = self.x * rhs;
        self.y = self.y * rhs;
        self.z = self.z * rhs;
    }
}

/// Component-wise sum.
impl Add for Vector3<i32> {
    type Output = Self;

    fn add(self, rhs: Self) -> (sum: Self) {
        Vector3 { x: self.x + rhs.x, y: self.y + rhs.y, z: self.z + rhs.z }
    }
}

impl vstd::std_specs::ops::AddSpecImpl for Vector3<i32> {
    open spec fn obeys_add_spec() -> bool {
        true
    }

    open spec fn add_req(self, rhs: Self) -> bool {
        fits_i32(self.x + rhs.x) && fits_i32(self.y + rhs.y) && fits_i32(self.z + rhs.z)
    }

    open spec fn add_spec(self, rhs: Self) -> Self {
        Vector3 { x: (self.x + rhs.x) as i32, y: (self.y + rhs.y) as i32, z: (self.z + rhs.z) as i32 }
    }
}

/// Component-wise difference.
impl Sub for Vector3<i32> {
    type Output = Self;

    fn sub(self, rhs: Self) -> (difference: Self) {
        Vector3 { x: self.x - rhs.x, y: self.y - rhs.y, z: self.z - rhs.z }
    }
}

impl vstd::std_specs::ops::SubSpecImpl for Vector3<i32> {
    open spec fn obeys_sub_spec() -> bool {
        true
    }

    open spec fn sub_req(self, rhs: Self) -> bool {
        fits_i32(self.x - rhs.x) && fits_i32(self.y - rhs.y) && fits_i32(self.z - rhs.z)
    }

    open spec fn sub_spec(self, rhs: Self) -> Self {
        Vector3 { x: (self.x - rhs.x) as i32, y: (self.y - rhs.y) as i32, z: (self.z - rhs.z) as i32 }
    }
}

/// Cross product
impl BitXor for Vector3<i32> {
    type Output = Self;

    fn bitxor(self, rhs: Self) -> (cross: Self) {
        proof {
            lemma_product_bounds(self.y as int, rhs.z as int);
            lemma_product_bounds(self.z as int, rhs.y as int);
            lemma_product_bounds(self.z as int, rhs.x as int);
            lemma_product_bounds(self.x as int, rhs.z as int);
            lemma_product_bounds(self.x as int, rhs.y as int);
            lemma_product_bounds(self.y as int, rhs.x as int);
        }
        let x: i64 = self.y as i64 * rhs.z as i64 - self.z as i64 * rhs.y as i64;
        let y: i64 = self.z as i64 * rhs.x as i64 - self.x as i64 * rhs.z as i64;
        let z: i64 = self.x as i64 * rhs.y as i64 - self.y as i64 * rhs.x as i64;
        Vector3 { x: x as i32, y: y as i32, z: z as i32 }
    }
}

impl vstd::std_specs::ops::BitXorSpecImpl for Vector3<i32> {
    open spec fn obeys_bitxor_spec() -> bool {
        true
    }

    open spec fn bitxor_req(self, rhs: Self) -> bool {
        &&& fits_i32(self.y * rhs.z - self.z * rhs.y)
        &&& fits_i32(self.z * rhs.x - self.x * rhs.z)
        &&& fits_i32(self.x * rhs.y - self.y * rhs.x)
    }

    open spec fn bitxor_spec(self, rhs: Self) -> Self {
        Vector3 {
            x: (self.y * rhs.z - self.z * rhs.y) as i32,
            y: (self.z * rhs.x - self.x * rhs.z) as i32,
            z: (self.x * rhs.y - self.y * rhs.x) as i32,
        }
    }
}

pub type Vector3Int = Vector3<i32>;

/// The product of two 32-bit integers stays well inside 64 bits.
pub proof fn lemma_product_bounds(a: int, b: int)
    requires
        fits_i32(a),
        fits_i32(b),
    ensures
        -0x4000_0000_0000_0000 < a * b <= 0x4000_0000_0000_0000,
{
    assert(-0x4000_0000_0000_0000 < a * b <= 0x4000_0000_0000_0000) by (nonlinear_arith)
        requires
            -0x8000_0000 <= a <= 0x7fff_ffff,
            -0x8000_0000 <= b <= 0x7fff_ffff,
    ;
}

} // verus!
