//! Single-precision matrices and vectors held as the bit patterns of their
//! components, and the few float operations of glam that the scene needs.
//! The wrappers move bit patterns in and out of glam's types with
//! `bytemuck::cast`, which reinterprets them unchanged. glam is built with its
//! scalar backend, so each operation follows one formula on every target; a
//! NaN's sign and payload may still differ, so every result has its NaNs
//! replaced by one canonical NaN before the library uses it.
use vstd::prelude::*;

verus! {

/// Bit pattern of the single-precision float 1.0.
pub const ONE_BITS: u32 = 0x3f80_0000;

/// Whether the float with bit pattern `b` is a NaN: all exponent bits set
/// and a non-zero mantissa, whatever the sign.
pub open spec fn is_nan(b: u32) -> bool {
    b % 0x8000_0000u32 > 0x7f80_0000u32
}

/// The quiet NaN that stands for every NaN result.
pub const CANONICAL_NAN: u32 = 0x7fc0_0000;

/// `b`, with any NaN replaced by [`CANONICAL_NAN`].
pub open spec fn canonical(b: u32) -> u32 {
    if is_nan(b) {
        CANONICAL_NAN
    } else {
        b
    }
}

/// Every component made canonical.
pub open spec fn canonical_seq(s: Seq<u32>) -> Seq<u32> {
    Seq::new(s.len(), |i: int| canonical(s[i]))
}

/// `r` is `n` up to the sign and payload of NaNs: a component is a NaN in
/// both or in neither, and equal where it is not a NaN.
pub open spec fn agrees(r: Seq<u32>, n: Seq<u32>) -> bool {
    &&& r.len() == n.len()
    &&& forall|i: int| 0 <= i < r.len() ==> agrees_bits(#[trigger] r[i], n[i])
}

/// The scalar case of [`agrees`].
pub open spec fn agrees_bits(r: u32, n: u32) -> bool {
    &&& is_nan(r) == is_nan(n)
    &&& !is_nan(n) ==> r == n
}

/// glam's `Mat4 * Mat4` (scalar formulas), up to NaN sign and payload.
pub uninterp spec fn glam_mat4_mul(a: Seq<u32>, b: Seq<u32>) -> Seq<u32>;

/// glam's `Mat4::from_scale_rotation_translation` with the scale splatted
/// over the three axes, up to NaN sign and payload.
pub uninterp spec fn glam_trs(scale: u32, rotation: Seq<u32>, translation: Seq<u32>) -> Seq<u32>;

/// glam's `Vec3 + Vec3`, up to NaN sign and payload.
pub uninterp spec fn glam_vec3_add(a: Seq<u32>, b: Seq<u32>) -> Seq<u32>;

/// glam's `Quat * Quat` (scalar formula), up to NaN sign and payload.
pub uninterp spec fn glam_quat_mul(a: Seq<u32>, b: Seq<u32>) -> Seq<u32>;

/// glam's `Mat4::mul_vec4` (scalar formula), up to NaN sign and payload.
pub uninterp spec fn glam_mat4_mul_vec4(m: Seq<u32>, v: Seq<u32>) -> Seq<u32>;

/// glam's `Vec4::dot` (scalar formula), up to NaN sign and payload.
pub uninterp spec fn glam_vec4_dot(a: Seq<u32>, b: Seq<u32>) -> u32;

/// glam's `Mat4::inverse` (scalar formula), up to NaN sign and payload.
pub uninterp spec fn glam_mat4_inverse(m: Seq<u32>) -> Seq<u32>;

/// The inverse of a matrix, NaNs made canonical.
pub open spec fn matrix_inverse(m: Seq<u32>) -> Seq<u32> {
    canonical_seq(glam_mat4_inverse(m))
}

/// The transpose of a column-major 4x4 matrix: entry `(row, col)` moves to
/// `(col, row)`.
pub open spec fn transposed(m: Seq<u32>) -> Seq<u32> {
    Seq::new(16, |k: int| m[(k % 4) * 4 + k / 4])
}

/// The product `a * b` of two column-major matrices, NaNs made canonical.
pub open spec fn matrix_product(a: Seq<u32>, b: Seq<u32>) -> Seq<u32> {
    canonical_seq(glam_mat4_mul(a, b))
}

/// The affine matrix that scales uniformly by `scale`, then rotates by the
/// quaternion `rotation`, then translates by `translation`, NaNs made canonical.
pub open spec fn trs_matrix(scale: u32, rotation: Seq<u32>, translation: Seq<u32>) -> Seq<u32> {
    canonical_seq(glam_trs(scale, rotation, translation))
}

/// The component-wise sum `a + b` of two 3-vectors, NaNs made canonical.
pub open spec fn vector_sum(a: Seq<u32>, b: Seq<u32>) -> Seq<u32> {
    canonical_seq(glam_vec3_add(a, b))
}

/// The quaternion product `a * b` (rotation `b`, then `a`), NaNs made canonical.
pub open spec fn quaternion_product(a: Seq<u32>, b: Seq<u32>) -> Seq<u32> {
    canonical_seq(glam_quat_mul(a, b))
}

/// The product `m * v` of a matrix and a 4-vector, NaNs made canonical.
pub open spec fn matrix_vector_product(m: Seq<u32>, v: Seq<u32>) -> Seq<u32> {
    canonical_seq(glam_mat4_mul_vec4(m, v))
}

/// The dot product of two 4-vectors, a NaN made canonical.
pub open spec fn dot_product(a: Seq<u32>, b: Seq<u32>) -> u32 {
    canonical(glam_vec4_dot(a, b))
}

/// A column-major 4x4 matrix of single-precision floats, each entry held as
/// its IEEE-754 bit pattern.
#[derive(Clone, Copy, Debug, PartialEq, Eq)]
pub struct Matrix {
    pub cols: [u32; 16],
}

impl View for Matrix {
    type V = Seq<u32>;

    open spec fn view(&self) -> Seq<u32> {
        self.cols@
    }
}

/// Bit patterns of the identity matrix.
pub open spec fn identity_bits() -> Seq<u32> {
    Seq::new(16, |k: int| if k % 5 == 0 { ONE_BITS } else { 0u32 })
}

impl Matrix {
    /// The identity matrix.
    pub fn identity() -> (r: Matrix)
        ensures
            r@ == identity_bits(),
    {
        let r = Matrix {
            cols: [
                ONE_BITS, 0, 0, 0,
                0, ONE_BITS, 0, 0,
                0, 0, ONE_BITS, 0,
                0, 0, 0, ONE_BITS,
            ],
        };
        assert(r@ =~= identity_bits());
        r
    }

    /// A matrix from the bit patterns of its sixteen entries, column by column.
    pub fn from_bits(cols: [u32; 16]) -> (r: Matrix)
        ensures
            r.cols == cols,
    {
        Matrix { cols }
    }
}

fn canonical_exec(b: u32) -> (r: u32)
    ensures
        r == canonical(b),
{
    if b % 0x8000_0000u32 > 0x7f80_0000u32 {
        CANONICAL_NAN
    } else {
        b
    }
}

/// Replaces every NaN component by [`CANONICAL_NAN`]; a result that agrees
/// with `n` up to NaNs becomes exactly `canonical_seq(n)`.
fn canonicalize<const N: usize>(v: [u32; N], Ghost(n): Ghost<Seq<u32>>) -> (r: [u32; N])
    requires
        agrees(v@, n),
    ensures
        r@ == canonical_seq(n),
{
    let mut r = v;
    let mut i: usize = 0;
    while i < N
        invariant
            i <= N,
            r@.len() == N,
            agrees(v@, n),
            forall|k: int| 0 <= k < i ==> r@[k] == canonical(n[k]),
            forall|k: int| i <= k < N ==> r@[k] == v@[k],
        decreases N - i,
    {
        let c = canonical_exec(r[i]);
        r.set(i, c);
        proof {
            assert(agrees_bits(v@[i as int], n[i as int]));
        }
        i += 1;
    }
    assert(r@ =~= canonical_seq(n));
    r
}

/// Relies on glam's `Mat4 * Mat4` (scalar backend, whose formula is the same
/// on every target): the result depends on the two matrices alone, up to the
/// sign and payload of NaNs.
#[verifier::external_body]
fn glam_multiply(a: &Matrix, b: &Matrix) -> (r: [u32; 16])
    ensures
        agrees(r@, glam_mat4_mul(a@, b@)),
{
    let a: glam::Mat4 = bytemuck::cast(a.cols);
    let b: glam::Mat4 = bytemuck::cast(b.cols);
    bytemuck::cast(a * b)
}

/// The product `a * b`.
pub(crate) fn multiply(a: &Matrix, b: &Matrix) -> (r: Matrix)
    ensures
        r@ == matrix_product(a@, b@),
{
    let raw = glam_multiply(a, b);
    Matrix { cols: canonicalize(raw, Ghost(glam_mat4_mul(a@, b@))) }
}

/// Relies on glam's `Mat4::from_scale_rotation_translation`, with the scale
/// splatted over the three axes: the matrix depends on its arguments alone,
/// up to the sign and payload of NaNs.
#[verifier::external_body]
fn glam_compose_trs(scale: u32, rotation: &[u32; 4], translation: &[u32; 3]) -> (r: [u32; 16])
    ensures
        agrees(r@, glam_trs(scale, rotation@, translation@)),
{
    let scale = glam::Vec3::splat(bytemuck::cast(scale));
    let rotation: glam::Quat = bytemuck::cast(*rotation);
    let translation: glam::Vec3 = bytemuck::cast(*translation);
    bytemuck::cast(glam::Mat4::from_scale_rotation_translation(scale, rotation, translation))
}

/// The local matrix of a uniform scale, a rotation and a translation.
pub(crate) fn compose_trs(scale: u32, rotation: &[u32; 4], translation: &[u32; 3]) -> (r: Matrix)
    ensures
        r@ == trs_matrix(scale, rotation@, translation@),
{
    let raw = glam_compose_trs(scale, rotation, translation);
    Matrix { cols: canonicalize(raw, Ghost(glam_trs(scale, rotation@, translation@))) }
}

/// Relies on glam's `Mat4::mul_vec4` (scalar backend): the product depends on
/// its arguments alone, up to the sign and payload of NaNs.
#[verifier::external_body]
fn glam_transform_vector(m: &Matrix, v: &[u32; 4]) -> (r: [u32; 4])
    ensures
        agrees(r@, glam_mat4_mul_vec4(m@, v@)),
{
    let m: glam::Mat4 = bytemuck::cast(m.cols);
    let v: glam::Vec4 = bytemuck::cast(*v);
    bytemuck::cast(m.mul_vec4(v))
}

/// The product `m * v`.
pub(crate) fn transform_vector(m: &Matrix, v: &[u32; 4]) -> (r: [u32; 4])
    ensures
        r@ == matrix_vector_product(m@, v@),
{
    let raw = glam_transform_vector(m, v);
    canonicalize(raw, Ghost(glam_mat4_mul_vec4(m@, v@)))
}

/// Relies on glam's `Vec4::dot` (scalar backend, summed as
/// `((x + y) + z) + w`): the result depends on the two vectors alone, up to
/// the sign and payload of a NaN.
#[verifier::external_body]
fn glam_dot(a: &[u32; 4], b: &[u32; 4]) -> (r: u32)
    ensures
        agrees_bits(r, glam_vec4_dot(a@, b@)),
{
    let a: glam::Vec4 = bytemuck::cast(*a);
    let b: glam::Vec4 = bytemuck::cast(*b);
    bytemuck::cast(a.dot(b))
}

/// The dot product of `a` and `b`.
pub(crate) fn dot(a: &[u32; 4], b: &[u32; 4]) -> (r: u32)
    ensures
        r == dot_product(a@, b@),
{
    canonical_exec(glam_dot(a, b))
}

/// Whether the float with bit pattern `b` is less than zero: the sign bit is
/// set, and it is neither negative zero nor a NaN.
pub open spec fn is_negative(b: u32) -> bool {
    0x8000_0000u32 < b && b <= 0xff80_0000u32
}

/// The bit pattern of the negation of the float with bit pattern `b`: its
/// sign bit flipped.
pub open spec fn negated(b: u32) -> u32 {
    if b >= 0x8000_0000u32 {
        (b - 0x8000_0000u32) as u32
    } else {
        (b + 0x8000_0000u32) as u32
    }
}

/// Whether the float with bit pattern `b` is less than zero.
pub fn float_is_negative(b: u32) -> (r: bool)
    ensures
        r == is_negative(b),
{
    0x8000_0000u32 < b && b <= 0xff80_0000u32
}

/// Negates the float with bit pattern `b`.
pub fn negate(b: u32) -> (r: u32)
    ensures
        r == negated(b),
{
    if b >= 0x8000_0000u32 {
        b - 0x8000_0000u32
    } else {
        b + 0x8000_0000u32
    }
}

/// Relies on glam's `Mat4::inverse` (scalar backend): the result depends on
/// the matrix alone, up to the sign and payload of NaNs. A singular matrix
/// gives infinities or NaNs; nothing panics unless glam's assertions are on.
#[verifier::external_body]
fn glam_invert(m: &Matrix) -> (r: [u32; 16])
    ensures
        agrees(r@, glam_mat4_inverse(m@)),
{
    let m: glam::Mat4 = bytemuck::cast(m.cols);
    bytemuck::cast(m.inverse())
}

/// The inverse of `m`.
pub(crate) fn invert(m: &Matrix) -> (r: Matrix)
    ensures
        r@ == matrix_inverse(m@),
{
    let raw = glam_invert(m);
    Matrix { cols: canonicalize(raw, Ghost(glam_mat4_inverse(m@))) }
}

/// The transpose of `m`.
pub fn transpose(m: &Matrix) -> (r: Matrix)
    ensures
        r@ == transposed(m@),
{
    let c = m.cols;
    let r = Matrix {
        cols: [
            c[0], c[4], c[8], c[12],
            c[1], c[5], c[9], c[13],
            c[2], c[6], c[10], c[14],
            c[3], c[7], c[11], c[15],
        ],
    };
    assert(r@ =~= transposed(m@));
    r
}

/// Relies on glam's `Vec3 + Vec3`: the sum depends on the two vectors alone,
/// up to the sign and payload of NaNs.
#[verifier::external_body]
fn glam_add_vectors(a: &[u32; 3], b: &[u32; 3]) -> (r: [u32; 3])
    ensures
        agrees(r@, glam_vec3_add(a@, b@)),
{
    let a: glam::Vec3 = bytemuck::cast(*a);
    let b: glam::Vec3 = bytemuck::cast(*b);
    bytemuck::cast(a + b)
}

/// The sum `a + b`.
pub(crate) fn add_vectors(a: &[u32; 3], b: &[u32; 3]) -> (r: [u32; 3])
    ensures
        r@ == vector_sum(a@, b@),
{
    let raw = glam_add_vectors(a, b);
    canonicalize(raw, Ghost(glam_vec3_add(a@, b@)))
}

/// Relies on glam's `Quat * Quat` (scalar backend): the product depends on
/// the two quaternions alone, up to the sign and payload of NaNs.
#[verifier::external_body]
fn glam_multiply_quaternions(a: &[u32; 4], b: &[u32; 4]) -> (r: [u32; 4])
    ensures
        agrees(r@, glam_quat_mul(a@, b@)),
{
    let a: glam::Quat = bytemuck::cast(*a);
    let b: glam::Quat = bytemuck::cast(*b);
    bytemuck::cast(a * b)
}

/// The product `a * b`.
pub(crate) fn multiply_quaternions(a: &[u32; 4], b: &[u32; 4]) -> (r: [u32; 4])
    ensures
        r@ == quaternion_product(a@, b@),
{
    let raw = glam_multiply_quaternions(a, b);
    canonicalize(raw, Ghost(glam_quat_mul(a@, b@)))
}

} // verus!
