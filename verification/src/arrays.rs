//! Vectors and matrices of field elements, stored in `ndarray` arrays.
//!
//! `ndarray`'s array type is generic over traits that the verifier cannot be
//! told of, so each array sits in a struct whose inside is hidden from it
//! (`FieldArray1`, `FieldArray2`). What such an array holds has a name
//! (`array1_entries`, `array2_entries`, `array2_cols`), and each `ndarray`
//! operation that the library uses is a small function whose contract says
//! over those names what the operation does. These functions are believed, not
//! proved. `Vector` and `Matrix` wrap the two structs; their
//! invariants, and everything else in this module, are proved from those contracts.

use crate::algebra::{is_matrix, is_vector, mat_vec};
use crate::field::FieldElement;
use ark_ff::PrimeField;
use vstd::arithmetic::div_mod::{lemma_fundamental_div_mod, lemma_mod_bound};
use vstd::prelude::*;

verus! {

/// The greatest number of field elements that one array may hold: an
/// element takes 48 bytes, and an allocation at most `isize::MAX` bytes, which
/// is `usize::MAX / 2`.
pub const MAX_ELEMENTS: usize = usize::MAX / 96;

/// Whether an array of `rows` by `cols` elements can be allocated.
pub open spec fn shape_fits(rows: int, cols: int) -> bool {
    &&& 0 <= rows <= MAX_ELEMENTS
    &&& 0 <= cols <= MAX_ELEMENTS
    &&& rows * cols <= MAX_ELEMENTS
}

/// A one-dimensional `ndarray` array of field elements.
#[verifier::external_body]
pub struct FieldArray1 {
    inner: ndarray::Array1<ark_bls12_381::Fq>,
}

/// A two-dimensional `ndarray` array of field elements.
#[verifier::external_body]
pub struct FieldArray2 {
    inner: ndarray::Array2<ark_bls12_381::Fq>,
}

/// The canonical representatives of the elements of a one-dimensional array,
/// in index order.
pub uninterp spec fn array1_entries(a: FieldArray1) -> Seq<int>;

/// The canonical representatives of the elements of a two-dimensional array,
/// row by row.
pub uninterp spec fn array2_entries(a: FieldArray2) -> Seq<Seq<int>>;

/// The length of the second axis of a two-dimensional array; an array
/// without rows has one too.
pub uninterp spec fn array2_cols(a: FieldArray2) -> nat;

/// `ndarray::Array1::zeros`: an array of `n` copies of the zero of the
/// field. The call panics where `n` elements take more than `isize::MAX`
/// bytes.
#[verifier::external_body]
fn array1_zeros(n: usize) -> (a: FieldArray1)
    requires
        n <= MAX_ELEMENTS,
    ensures
        array1_entries(a) == Seq::new(n as nat, |i: int| 0int),
{
    FieldArray1 { inner: ndarray::Array1::zeros(n) }
}

/// `ndarray`'s `IndexMut` on a one-dimensional array: element `i` becomes
/// `x`, the others stay. `x` is handed over through `ark_ff`'s `Fp::new`,
/// which takes the limbs of a reduced integer. The call panics where `i` is
/// out of bounds.
#[verifier::external_body]
fn array1_set(a: &mut FieldArray1, i: usize, x: &FieldElement)
    requires
        i < array1_entries(*old(a)).len(),
    ensures
        array1_entries(*final(a)) == array1_entries(*old(a)).update(i as int, x.value()),
{
    a.inner[i] = ark_bls12_381::Fq::new(ark_ff::BigInt::new(x.limbs));
}

/// `ndarray`'s `Index` on a one-dimensional array: element `i`, brought
/// back through `ark_ff`'s `PrimeField::into_bigint`, which gives the limbs
/// of the canonical representative. The call panics where `i` is out of
/// bounds.
#[verifier::external_body]
fn array1_get(a: &FieldArray1, i: usize) -> (x: FieldElement)
    requires
        i < array1_entries(*a).len(),
    ensures
        x.value() == array1_entries(*a)[i as int],
{
    FieldElement { limbs: a.inner[i].into_bigint().0 }
}

/// `ndarray::ArrayBase::len`: the number of elements.
#[verifier::external_body]
fn array1_len(a: &FieldArray1) -> (n: usize)
    ensures
        n == array1_entries(*a).len(),
{
    a.inner.len()
}

/// `ndarray`'s `PartialEq` between two one-dimensional arrays: the lengths
/// are equal and so are, by `ark_ff`'s `PartialEq`, the elements at every
/// index.
#[verifier::external_body]
fn array1_eq(a: &FieldArray1, b: &FieldArray1) -> (e: bool)
    ensures
        e == (array1_entries(*a) == array1_entries(*b)),
{
    a.inner == b.inner
}

/// `ndarray::Array2::zeros`: an array of `rows` by `cols` copies of the zero
/// of the field. The call panics where the product of the axis lengths that
/// are not zero, or the bytes that the elements take, pass `isize::MAX`.
#[verifier::external_body]
fn array2_zeros(rows: usize, cols: usize) -> (a: FieldArray2)
    requires
        shape_fits(rows as int, cols as int),
    ensures
        array2_entries(a) == Seq::new(rows as nat, |i: int| Seq::new(cols as nat, |j: int| 0int)),
        array2_cols(a) == cols,
{
    FieldArray2 { inner: ndarray::Array2::zeros((rows, cols)) }
}

/// `ndarray`'s `IndexMut` on a two-dimensional array: element `(i, j)`
/// becomes `x`, handed over through `ark_ff`'s `Fp::new`; the other elements
/// and the shape stay. The call panics where the index is out of bounds.
#[verifier::external_body]
fn array2_set(a: &mut FieldArray2, i: usize, j: usize, x: &FieldElement)
    requires
        i < array2_entries(*old(a)).len(),
        j < array2_cols(*old(a)),
    ensures
        array2_entries(*final(a)) == array2_entries(*old(a)).update(
            i as int,
            array2_entries(*old(a))[i as int].update(j as int, x.value()),
        ),
        array2_cols(*final(a)) == array2_cols(*old(a)),
{
    a.inner[[i, j]] = ark_bls12_381::Fq::new(ark_ff::BigInt::new(x.limbs));
}

/// `ndarray::ArrayBase::dim`: the lengths of the two axes.
#[verifier::external_body]
fn array2_dim(a: &FieldArray2) -> (d: (usize, usize))
    ensures
        d.0 == array2_entries(*a).len(),
        d.1 == array2_cols(*a),
{
    a.inner.dim()
}

/// `ndarray`'s `Dot` of a two-dimensional with a one-dimensional array: the
/// matrix-vector product, each entry the sum, by `ark_ff`'s `Add` and `Mul`,
/// of the products of a row's elements with the vector's. The call panics
/// where the matrix has not as many columns as the vector has elements, or
/// has more rows than a vector can have elements.
#[verifier::external_body]
fn array2_dot(m: &FieldArray2, v: &FieldArray1) -> (r: FieldArray1)
    requires
        array2_cols(*m) == array1_entries(*v).len(),
        array2_entries(*m).len() <= MAX_ELEMENTS,
    ensures
        array1_entries(r) == mat_vec(array2_entries(*m), array1_entries(*v)),
{
    FieldArray1 { inner: m.inner.dot(&v.inner) }
}

/// A vector over the field. It does not change once it is made.
pub struct Vector {
    array: FieldArray1,
}

impl View for Vector {
    type V = Seq<int>;

    /// The canonical representatives of the entries, in order.
    closed spec fn view(&self) -> Seq<int> {
        array1_entries(self.array)
    }
}

impl Vector {
    /// The entries are canonical and few enough to be allocated.
    #[verifier::type_invariant]
    pub open spec fn well_formed(&self) -> bool {
        &&& is_vector(self@, self@.len())
        &&& self@.len() <= MAX_ELEMENTS
    }

    /// The vector with the given entries.
    pub fn from_elements(elements: &Vec<FieldElement>) -> (v: Vector)
        requires
            elements.len() <= MAX_ELEMENTS,
        ensures
            v@ == elements@.map_values(|e: FieldElement| e.value()),
    {
        let n = elements.len();
        let mut array = array1_zeros(n);
        let mut i: usize = 0;
        while i < n
            invariant
                n == elements.len(),
                i <= n,
                array1_entries(array).len() == n,
                forall|k: int|
                    0 <= k < i ==> array1_entries(array)[k] == (#[trigger] elements@[k]).value(),
                forall|k: int| i <= k < n ==> array1_entries(array)[k] == 0,
                is_vector(array1_entries(array), n as nat),
            decreases n - i,
        {
            let element = &elements[i];
            proof {
                use_type_invariant(element);
            }
            array1_set(&mut array, i, element);
            i += 1;
        }
        assert(array1_entries(array) =~= elements@.map_values(|e: FieldElement| e.value()));
        Vector { array }
    }

    /// The number of entries.
    pub fn len(&self) -> (n: usize)
        ensures
            n == self@.len(),
    {
        array1_len(&self.array)
    }

    /// Entry `i`.
    pub fn get(&self, i: usize) -> (x: FieldElement)
        requires
            i < self@.len(),
        ensures
            x.value() == self@[i as int],
    {
        array1_get(&self.array, i)
    }

    /// Whether two vectors have the same length and the same entries.
    pub fn equals(&self, other: &Vector) -> (e: bool)
        ensures
            e == (self@ == other@),
    {
        array1_eq(&self.array, &other.array)
    }
}

/// A matrix over the field. It does not change once it is made.
pub struct Matrix {
    array: FieldArray2,
}

impl View for Matrix {
    type V = Seq<Seq<int>>;

    /// The canonical representatives of the entries, row by row.
    closed spec fn view(&self) -> Seq<Seq<int>> {
        array2_entries(self.array)
    }
}

/// The canonical representatives of the entries of a matrix given by its rows.
pub open spec fn rows_values(rows: Seq<Vec<FieldElement>>) -> Seq<Seq<int>> {
    rows.map_values(|row: Vec<FieldElement>| row@.map_values(|e: FieldElement| e.value()))
}

/// Whether the rows all have `cols` entries.
pub open spec fn rows_have_length(rows: Seq<Vec<FieldElement>>, cols: int) -> bool {
    forall|i: int| 0 <= i < rows.len() ==> (#[trigger] rows[i]).len() == cols
}

/// The number of columns of a matrix given by its rows: the length of the
/// first row, and none where there is no row.
pub open spec fn rows_width(rows: Seq<Vec<FieldElement>>) -> int {
    if rows.len() == 0 {
        0
    } else {
        rows[0].len() as int
    }
}

impl Matrix {
    /// The number of rows.
    pub open spec fn rows(&self) -> nat {
        self@.len()
    }

    /// The number of columns.
    pub closed spec fn cols(&self) -> nat {
        array2_cols(self.array)
    }

    /// The rows all have `cols()` canonical entries, and the entries are
    /// few enough to be allocated.
    #[verifier::type_invariant]
    pub open spec fn well_formed(&self) -> bool {
        &&& is_matrix(self@, self.rows(), self.cols())
        &&& shape_fits(self.rows() as int, self.cols() as int)
    }

    /// The matrix with the given rows, if they all have the length of the
    /// first and the entries are few enough to be allocated.
    pub fn from_rows(rows: &Vec<Vec<FieldElement>>) -> (r: Option<Matrix>)
        ensures
            r is Some <==> rows_have_length(rows@, rows_width(rows@)) && shape_fits(
                rows@.len() as int,
                rows_width(rows@),
            ),
            r matches Some(m) ==> m@ == rows_values(rows@) && m.rows() == rows@.len() && m.cols()
                == rows_width(rows@),
    {
        let n = rows.len();
        let width = if n == 0 {
            0
        } else {
            rows[0].len()
        };
        let limit = MAX_ELEMENTS;
        if n > limit || width > limit {
            return None;
        }
        if width > 0 && n > limit / width {
            proof {
                lemma_product_exceeds(n as int, width as int, limit as int);
            }
            return None;
        }
        proof {
            lemma_product_fits(n as int, width as int, limit as int);
        }
        let mut array = array2_zeros(n, width);
        let mut i: usize = 0;
        while i < n
            invariant
                n == rows.len(),
                width == rows_width(rows@),
                i <= n,
                array2_cols(array) == width,
                array2_entries(array).len() == n,
                forall|k: int| 0 <= k < i ==> (#[trigger] rows@[k]).len() == width,
                forall|k: int|
                    0 <= k < i ==> #[trigger] array2_entries(array)[k] == rows@[k]@.map_values(
                        |e: FieldElement| e.value(),
                    ),
                forall|k: int|
                    i <= k < n ==> #[trigger] array2_entries(array)[k] == Seq::new(
                        width as nat,
                        |j: int| 0int,
                    ),
                is_matrix(array2_entries(array), n as nat, width as nat),
            decreases n - i,
        {
            let row = &rows[i];
            if row.len() != width {
                return None;
            }
            let mut j: usize = 0;
            while j < width
                invariant
                    n == rows.len(),
                    i < n,
                    row == rows@[i as int],
                    row.len() == width,
                    j <= width,
                    array2_cols(array) == width,
                    array2_entries(array).len() == n,
                    forall|k: int|
                        0 <= k < i ==> #[trigger] array2_entries(array)[k] == rows@[k]@.map_values(
                            |e: FieldElement| e.value(),
                        ),
                    forall|k: int|
                        i < k < n ==> #[trigger] array2_entries(array)[k] == Seq::new(
                            width as nat,
                            |j: int| 0int,
                        ),
                    array2_entries(array)[i as int].len() == width,
                    forall|t: int|
                        0 <= t < j ==> array2_entries(array)[i as int][t] == (#[trigger] row@[t]).value(),
                    forall|t: int| j <= t < width ==> array2_entries(array)[i as int][t] == 0,
                    is_matrix(array2_entries(array), n as nat, width as nat),
                decreases width - j,
            {
                let element = &row[j];
                proof {
                    use_type_invariant(element);
                }
                array2_set(&mut array, i, j, element);
                j += 1;
            }
            assert(array2_entries(array)[i as int] =~= row@.map_values(
                |e: FieldElement| e.value(),
            ));
            i += 1;
        }
        assert(array2_entries(array) =~= rows_values(rows@));
        Some(Matrix { array })
    }

    /// The numbers of rows and of columns.
    pub fn dim(&self) -> (d: (usize, usize))
        ensures
            d.0 == self.rows(),
            d.1 == self.cols(),
    {
        array2_dim(&self.array)
    }

    /// The product of the matrix with a column vector.
    pub fn dot(&self, v: &Vector) -> (r: Vector)
        requires
            self.cols() == v@.len(),
        ensures
            r@ == mat_vec(self@, v@),
    {
        proof {
            use_type_invariant(self);
        }
        Vector { array: array2_dot(&self.array, &v.array) }
    }
}

/// Where `n` is above `limit / width`, the product `n * width` is above `limit`.
proof fn lemma_product_exceeds(n: int, width: int, limit: int)
    requires
        0 < width,
        0 <= limit,
        n > limit / width,
    ensures
        n * width > limit,
{
    lemma_fundamental_div_mod(limit, width);
    lemma_mod_bound(limit, width);
    assert(n * width >= (limit / width + 1) * width) by (nonlinear_arith)
        requires
            n >= limit / width + 1,
            width > 0,
    ;
    assert((limit / width + 1) * width == width * (limit / width) + width) by (nonlinear_arith);
}

/// Where `n` is at most `limit / width`, or `width` is 0, the product
/// `n * width` is at most `limit`.
proof fn lemma_product_fits(n: int, width: int, limit: int)
    requires
        0 <= width,
        0 <= n,
        0 <= limit,
        width > 0 ==> n <= limit / width,
    ensures
        n * width <= limit,
{
    if width > 0 {
        lemma_fundamental_div_mod(limit, width);
        lemma_mod_bound(limit, width);
        assert(n * width <= (limit / width) * width) by (nonlinear_arith)
            requires
                0 <= n <= limit / width,
                width > 0,
        ;
        assert((limit / width) * width == width * (limit / width)) by (nonlinear_arith);
    } else {
        assert(n * width == 0) by (nonlinear_arith)
            requires
                width == 0,
        ;
    }
}

} // verus!
