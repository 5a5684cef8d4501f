//! Vectors, quaternions and 4x4 matrices as exact carriers of binary32 bit
//! patterns.
//!
//! Matrices follow the row-vector convention: entry `(column, row)` of a
//! matrix sits at position `column + 4 * row`, and a translation occupies the
//! last row.  Nothing here rounds: the functions build, read and rearrange
//! components.  Arithmetic on the encoded values is the caller's business.
use vstd::prelude::*;

verus! {

/// The bit pattern of `0.0`.
pub const ZERO_BITS: u32 = 0;

/// The bit pattern of `1.0`.
pub const ONE_BITS: u32 = 0x3F80_0000;

#[derive(Clone, Copy, Debug, PartialEq, Eq, Structural)]
pub struct Vector2 {
    pub x: u32,
    pub y: u32,
}

impl Default for Vector2 {
    fn default() -> (v: Vector2)
        ensures
            v == (Vector2 { x: ZERO_BITS, y: ZERO_BITS }),
    {
        Vector2 { x: ZERO_BITS, y: ZERO_BITS }
    }
}

impl Vector2 {
    pub fn new(x: u32, y: u32) -> (v: Vector2)
        ensures
            v == (Vector2 { x, y }),
    {
        Vector2 { x, y }
    }
}

#[derive(Clone, Copy, Debug, PartialEq, Eq, Structural)]
pub struct Vector3 {
    pub x: u32,
    pub y: u32,
    pub z: u32,
}

impl Default for Vector3 {
    fn default() -> (v: Vector3)
        ensures
            v == (Vector3 { x: ZERO_BITS, y: ZERO_BITS, z: ZERO_BITS }),
    {
        Vector3 { x: ZERO_BITS, y: ZERO_BITS, z: ZERO_BITS }
    }
}

impl Vector3 {
    pub fn new(x: u32, y: u32, z: u32) -> (v: Vector3)
        ensures
            v == (Vector3 { x, y, z }),
    {
        Vector3 { x, y, z }
    }

    /// The vector whose components are `array[0]`, `array[1]`, `array[2]`.
    pub open spec fn of_seq(array: Seq<u32>) -> Vector3
        recommends
            array.len() == 3,
    {
        Vector3 { x: array[0], y: array[1], z: array[2] }
    }

    pub fn from_array(array: &[u32; 3]) -> (v: Vector3)
        ensures
            v == Vector3::of_seq(array@),
    {
        Vector3 { x: array[0], y: array[1], z: array[2] }
    }

    /// The vector of three zeros.
    pub fn zero() -> (v: Vector3)
        ensures
            v == (Vector3 { x: ZERO_BITS, y: ZERO_BITS, z: ZERO_BITS }),
    {
        Vector3 { x: ZERO_BITS, y: ZERO_BITS, z: ZERO_BITS }
    }
}

#[derive(Clone, Copy, Debug, PartialEq, Eq, Structural)]
pub struct Vector4 {
    pub x: u32,
    pub y: u32,
    pub z: u32,
    pub w: u32,
}

impl Default for Vector4 {
    fn default() -> (v: Vector4)
        ensures
            v == (Vector4 { x: ZERO_BITS, y: ZERO_BITS, z: ZERO_BITS, w: ZERO_BITS }),
    {
        Vector4 { x: ZERO_BITS, y: ZERO_BITS, z: ZERO_BITS, w: ZERO_BITS }
    }
}

impl Vector4 {
    pub fn new(x: u32, y: u32, z: u32, w: u32) -> (v: Vector4)
        ensures
            v == (Vector4 { x, y, z, w }),
    {
        Vector4 { x, y, z, w }
    }

    pub fn as_array(&self) -> (array: [u32; 4])
        ensures
            array@ == seq![self.x, self.y, self.z, self.w],
    {
        let array: [u32; 4] = [self.x, self.y, self.z, self.w];
        assert(array@ =~= seq![self.x, self.y, self.z, self.w]);
        array
    }
}

/// A rotation, scalar part first.
#[derive(Clone, Copy, Debug, PartialEq, Eq, Structural)]
pub struct Quaternion {
    pub w: u32,
    pub v: Vector3,
}

impl Default for Quaternion {
    /// All zeros: no rotation at all, not even the identity.
    fn default() -> (q: Quaternion)
        ensures
            q == (Quaternion {
                w: ZERO_BITS,
                v: Vector3 { x: ZERO_BITS, y: ZERO_BITS, z: ZERO_BITS },
            }),
    {
        Quaternion { w: ZERO_BITS, v: Vector3 { x: ZERO_BITS, y: ZERO_BITS, z: ZERO_BITS } }
    }
}

impl Quaternion {
    pub fn new(w: u32, x: u32, y: u32, z: u32) -> (q: Quaternion)
        ensures
            q == (Quaternion { w, v: Vector3 { x, y, z } }),
    {
        Quaternion { w, v: Vector3 { x, y, z } }
    }

    /// The quaternion that a document writes as `[x, y, z, w]`: the scalar
    /// part comes last there and first here.
    pub open spec fn of_seq(array: Seq<u32>) -> Quaternion
        recommends
            array.len() == 4,
    {
        Quaternion { w: array[3], v: Vector3 { x: array[0], y: array[1], z: array[2] } }
    }

    pub fn from_array(array: &[u32; 4]) -> (q: Quaternion)
        ensures
            q == Quaternion::of_seq(array@),
    {
        Quaternion::new(array[3], array[0], array[1], array[2])
    }
}

#[derive(Clone, Copy, Debug, PartialEq, Eq)]
pub struct Mat4 {
    matrix: [u32; 16],
}

impl View for Mat4 {
    type V = Seq<u32>;

    closed spec fn view(&self) -> Seq<u32> {
        self.matrix@
    }
}

/// The sixteen entries of `m` read column by column.
pub open spec fn column_major(m: Seq<u32>) -> Seq<u32>
    recommends
        m.len() == 16,
{
    Seq::new(16, |i: int| m[4 * (i % 4) + i / 4])
}

impl Mat4 {
    /// A matrix has sixteen entries.
    pub proof fn lemma_sixteen_entries(self)
        ensures
            self@.len() == 16,
    {
    }

    pub fn new(matrix: [u32; 16]) -> (m: Mat4)
        ensures
            m@ == matrix@,
    {
        Mat4 { matrix }
    }

    /// The entry in column `x` of row `y`.
    pub fn get(&self, x: i32, y: i32) -> (entry: u32)
        requires
            i32::MIN <= 4 * y <= i32::MAX,
            0 <= x + 4 * y < 16,
        ensures
            entry == self@[x + 4 * y],
    {
        let index: usize = (x + (4 * y)) as usize;
        self.matrix[index]
    }

    pub fn identity() -> (m: Mat4)
        ensures
            m@ == seq![
                ONE_BITS, ZERO_BITS, ZERO_BITS, ZERO_BITS,
                ZERO_BITS, ONE_BITS, ZERO_BITS, ZERO_BITS,
                ZERO_BITS, ZERO_BITS, ONE_BITS, ZERO_BITS,
                ZERO_BITS, ZERO_BITS, ZERO_BITS, ONE_BITS,
            ],
    {
        let m = Mat4 {
            matrix: [
                ONE_BITS, ZERO_BITS, ZERO_BITS, ZERO_BITS,
                ZERO_BITS, ONE_BITS, ZERO_BITS, ZERO_BITS,
                ZERO_BITS, ZERO_BITS, ONE_BITS, ZERO_BITS,
                ZERO_BITS, ZERO_BITS, ZERO_BITS, ONE_BITS,
            ],
        };
        assert(m@ =~= seq![
            ONE_BITS, ZERO_BITS, ZERO_BITS, ZERO_BITS,
            ZERO_BITS, ONE_BITS, ZERO_BITS, ZERO_BITS,
            ZERO_BITS, ZERO_BITS, ONE_BITS, ZERO_BITS,
            ZERO_BITS, ZERO_BITS, ZERO_BITS, ONE_BITS,
        ]);
        m
    }

    /// The matrix that moves a row vector by `pos`.
    pub fn translate(pos: &Vector3) -> (m: Mat4)
        ensures
            m@ == seq![
                ONE_BITS, ZERO_BITS, ZERO_BITS, ZERO_BITS,
                ZERO_BITS, ONE_BITS, ZERO_BITS, ZERO_BITS,
                ZERO_BITS, ZERO_BITS, ONE_BITS, ZERO_BITS,
                pos.x, pos.y, pos.z, ONE_BITS,
            ],
    {
        let m = Mat4 {
            matrix: [
                ONE_BITS, ZERO_BITS, ZERO_BITS, ZERO_BITS,
                ZERO_BITS, ONE_BITS, ZERO_BITS, ZERO_BITS,
                ZERO_BITS, ZERO_BITS, ONE_BITS, ZERO_BITS,
                pos.x, pos.y, pos.z, ONE_BITS,
            ],
        };
        assert(m@ =~= seq![
            ONE_BITS, ZERO_BITS, ZERO_BITS, ZERO_BITS,
            ZERO_BITS, ONE_BITS, ZERO_BITS, ZERO_BITS,
            ZERO_BITS, ZERO_BITS, ONE_BITS, ZERO_BITS,
            pos.x, pos.y, pos.z, ONE_BITS,
        ]);
        m
    }

    /// The matrix that stretches a row vector by `scale`, axis by axis.
    pub fn scale(scale: &Vector3) -> (m: Mat4)
        ensures
            m@ == seq![
                scale.x, ZERO_BITS, ZERO_BITS, ZERO_BITS,
                ZERO_BITS, scale.y, ZERO_BITS, ZERO_BITS,
                ZERO_BITS, ZERO_BITS, scale.z, ZERO_BITS,
                ZERO_BITS, ZERO_BITS, ZERO_BITS, ONE_BITS,
            ],
    {
        let m = Mat4 {
            matrix: [
                scale.x, ZERO_BITS, ZERO_BITS, ZERO_BITS,
                ZERO_BITS, scale.y, ZERO_BITS, ZERO_BITS,
                ZERO_BITS, ZERO_BITS, scale.z, ZERO_BITS,
                ZERO_BITS, ZERO_BITS, ZERO_BITS, ONE_BITS,
            ],
        };
        assert(m@ =~= seq![
            scale.x, ZERO_BITS, ZERO_BITS, ZERO_BITS,
            ZERO_BITS, scale.y, ZERO_BITS, ZERO_BITS,
            ZERO_BITS, ZERO_BITS, scale.z, ZERO_BITS,
            ZERO_BITS, ZERO_BITS, ZERO_BITS, ONE_BITS,
        ]);
        m
    }

    /// Replaces the matrix by its transpose.
    pub fn tranpose(&mut self)
        ensures
            final(self)@ == column_major(old(self)@),
    {
        self.matrix = self.get_column_major_value()
    }

    /// The transpose of the matrix.
    pub fn get_transposed(&self) -> (m: Mat4)
        ensures
            m@ == column_major(self@),
    {
        Mat4 { matrix: self.get_column_major_value() }
    }

    pub fn get_value(&self) -> (value: [u32; 16])
        ensures
            value@ == self@,
    {
        self.matrix
    }

    pub fn get_column_major_value(&self) -> (value: [u32; 16])
        ensures
            value@ == column_major(self@),
    {
        let value: [u32; 16] = [
            self.matrix[0], self.matrix[4], self.matrix[8], self.matrix[12],
            self.matrix[1], self.matrix[5], self.matrix[9], self.matrix[13],
            self.matrix[2], self.matrix[6], self.matrix[10], self.matrix[14],
            self.matrix[3], self.matrix[7], self.matrix[11], self.matrix[15],
        ];
        assert(value@ =~= column_major(self@));
        value
    }
}

/// Transposing twice gives the matrix back.
pub proof fn lemma_column_major_involution(m: Seq<u32>)
    requires
        m.len() == 16,
    ensures
        column_major(column_major(m)) == m,
{
    assert(column_major(column_major(m)) =~= m);
}

} // verus!
