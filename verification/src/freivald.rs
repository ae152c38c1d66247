//! The verifier: a set of verification vectors, fixed when it is made, and
//! the check of a claimed product against each of them.

use crate::algebra::{
    geometric,
    is_matrix,
    lemma_mat_vec_associative,
    mat_mul,
    mat_vec,
    power_mod,
};
use crate::arrays::{Matrix, Vector, MAX_ELEMENTS};
use crate::field::{field_mul, modulus, random_field_element, FieldElement};
use vstd::arithmetic::div_mod::{lemma_mul_mod_noop_left, lemma_small_mod};
use vstd::arithmetic::power::pow;
use vstd::prelude::*;

verus! {

/// How often a zero draw is replaced by a fresh one before the verifier
/// settles for the scalar one.
pub const MAX_DRAWS: usize = 64;

/// Whether the three matrices have the same numbers of rows and of columns.
pub open spec fn same_dimensions(a: &Matrix, b: &Matrix, c: &Matrix) -> bool {
    &&& a.rows() == b.rows()
    &&& a.cols() == b.cols()
    &&& a.rows() == c.rows()
    &&& a.cols() == c.cols()
}

/// Whether `v` is the vector of the first `n` powers, from the power zero
/// on, of some non-zero scalar.
pub open spec fn is_power_vector(v: Seq<int>, n: nat) -> bool {
    exists|r: int| 0 < r < modulus() && v == #[trigger] geometric(r, n)
}

/// Whether the check of one vector passes: `a * (b * v) == c * v`.
pub open spec fn passes(v: Seq<int>, a: Seq<Seq<int>>, b: Seq<Seq<int>>, c: Seq<Seq<int>>) -> bool {
    mat_vec(a, mat_vec(b, v)) == mat_vec(c, v)
}

/// Whether `accepted` is the outcome of the check for the vector of the
/// powers of some non-zero scalar, of the length of `a`.
pub open spec fn accepted_by_power_vector(
    accepted: bool,
    a: Seq<Seq<int>>,
    b: Seq<Seq<int>>,
    c: Seq<Seq<int>>,
) -> bool {
    exists|v: Seq<int>| #[trigger] is_power_vector(v, a.len()) && accepted == passes(v, a, b, c)
}

/// Whether the check passes for every one of the vectors.
pub open spec fn all_pass(
    vectors: Seq<Seq<int>>,
    a: Seq<Seq<int>>,
    b: Seq<Seq<int>>,
    c: Seq<Seq<int>>,
) -> bool {
    forall|k: int| 0 <= k < vectors.len() ==> passes(#[trigger] vectors[k], a, b, c)
}

/// Whether the three matrices have the same dimensions.
pub fn check_matrix_dimensions(matrix_a: &Matrix, matrix_b: &Matrix, supposed_ab: &Matrix) -> (same:
    bool)
    ensures
        same == same_dimensions(matrix_a, matrix_b, supposed_ab),
{
    let a = matrix_a.dim();
    let b = matrix_b.dim();
    let c = supposed_ab.dim();
    a.0 == b.0 && a.1 == b.1 && a.0 == c.0 && a.1 == c.1
}

/// The vector `[r^0, r^1, ..., r^(n-1)]` of the powers of `r`. Its first
/// entry is one whatever `r` is, so for `r` zero it is the unit vector
/// `[1, 0, ..., 0]`.
pub fn geometric_vector(r: &FieldElement, n: usize) -> (v: Vector)
    requires
        n <= MAX_ELEMENTS,
    ensures
        v@ == geometric(r.value(), n as nat),
{
    let mut powers: Vec<FieldElement> = Vec::new();
    let mut power = FieldElement::one();
    let mut i: usize = 0;
    proof {
        reveal(pow);
        lemma_small_mod(1, modulus() as nat);
    }
    while i < n
        invariant
            i <= n,
            powers.len() == i,
            power.value() == power_mod(r.value(), i as nat),
            forall|k: int| 0 <= k < i ==> (#[trigger] powers@[k]).value() == power_mod(r.value(), k as nat),
        decreases n - i,
    {
        powers.push(power);
        proof {
            lemma_power_step(r.value(), i as nat);
        }
        power = field_mul(&power, r);
        i += 1;
    }
    let v = Vector::from_elements(&powers);
    assert(v@ =~= geometric(r.value(), n as nat));
    v
}

/// A scalar for a verification vector: a random field element, drawn again
/// while it comes out zero, at most `MAX_DRAWS` times; should every draw be
/// zero, the scalar is one.
fn draw_nonzero_scalar() -> (r: FieldElement)
    ensures
        0 < r.value() < modulus(),
{
    let mut draws: usize = 0;
    while draws < MAX_DRAWS
        invariant
            draws <= MAX_DRAWS,
        decreases MAX_DRAWS - draws,
    {
        let r = random_field_element();
        if !r.is_zero() {
            return r;
        }
        draws += 1;
    }
    FieldElement::one()
}

/// A verifier of claimed matrix products.
pub struct Freivald {
    x: Vec<Vector>,
}

impl View for Freivald {
    type V = Seq<Seq<int>>;

    /// The verification vectors, each as its canonical entries.
    closed spec fn view(&self) -> Seq<Seq<int>> {
        self.x@.map_values(|v: Vector| v@)
    }
}

impl Freivald {
    /// The length of the verification vectors: the dimension of the
    /// matrices that the verifier takes.
    pub open spec fn spec_size(&self) -> nat {
        self@[0].len()
    }

    /// There is at least one vector, and all have the same length.
    #[verifier::type_invariant]
    pub open spec fn well_formed(&self) -> bool {
        &&& self@.len() >= 1
        &&& forall|k: int| 0 <= k < self@.len() ==> (#[trigger] self@[k]).len() == self.spec_size()
    }

    /// Whether the verifier accepts `c` as the product of `a` and `b`: the
    /// check passes for every one of its vectors.
    pub open spec fn accepts(&self, a: Seq<Seq<int>>, b: Seq<Seq<int>>, c: Seq<Seq<int>>) -> bool {
        all_pass(self@, a, b, c)
    }

    /// A verifier with one verification vector of length `array_size`, the
    /// powers of a random non-zero scalar.
    pub fn new(array_size: usize) -> (f: Freivald)
        requires
            array_size <= MAX_ELEMENTS,
        ensures
            f@.len() == 1,
            is_power_vector(f@[0], array_size as nat),
    {
        Freivald::with_vectors(array_size, 1)
    }

    /// A verifier with `verification_vectors` verification vectors of
    /// length `array_size`, each the powers of a random non-zero scalar of its own.
    pub fn with_vectors(array_size: usize, verification_vectors: usize) -> (f: Freivald)
        requires
            array_size <= MAX_ELEMENTS,
            verification_vectors >= 1,
        ensures
            f@.len() == verification_vectors,
            forall|k: int|
                0 <= k < verification_vectors ==> is_power_vector(
                    #[trigger] f@[k],
                    array_size as nat,
                ),
    {
        let mut vectors: Vec<Vector> = Vec::new();
        let mut k: usize = 0;
        while k < verification_vectors
            invariant
                array_size <= MAX_ELEMENTS,
                k <= verification_vectors,
                vectors.len() == k,
                forall|j: int|
                    0 <= j < k ==> is_power_vector((#[trigger] vectors@[j])@, array_size as nat),
            decreases verification_vectors - k,
        {
            vectors.push(Freivald::random_vector(array_size));
            k += 1;
        }
        Freivald { x: vectors }
    }

    /// A verification vector of length `n`: the powers of a random
    /// non-zero scalar.
    fn random_vector(n: usize) -> (v: Vector)
        requires
            n <= MAX_ELEMENTS,
        ensures
            is_power_vector(v@, n as nat),
    {
        let r = draw_nonzero_scalar();
        let v = geometric_vector(&r, n);
        assert(0 < r.value() < modulus() && v@ == geometric(r.value(), n as nat));
        v
    }

    /// A verifier whose verification vectors, of length `array_size`, are
    /// the powers of the given scalars, one vector for each scalar in order.
    /// Nothing is drawn: the same scalars give the same verifier. A zero
    /// among the scalars is taken as it is and gives the unit vector
    /// `[1, 0, ..., 0]`, which checks the first column of the product only.
    pub fn from_scalars(array_size: usize, scalars: &Vec<FieldElement>) -> (f: Freivald)
        requires
            array_size <= MAX_ELEMENTS,
            scalars.len() >= 1,
        ensures
            f@.len() == scalars.len(),
            forall|k: int|
                0 <= k < scalars.len() ==> #[trigger] f@[k] == geometric(
                    scalars@[k].value(),
                    array_size as nat,
                ),
    {
        let count = scalars.len();
        let mut vectors: Vec<Vector> = Vec::new();
        let mut k: usize = 0;
        while k < count
            invariant
                array_size <= MAX_ELEMENTS,
                count == scalars.len(),
                k <= count,
                vectors.len() == k,
                forall|j: int|
                    0 <= j < k ==> (#[trigger] vectors@[j])@ == geometric(
                        scalars@[j].value(),
                        array_size as nat,
                    ),
            decreases count - k,
        {
            vectors.push(geometric_vector(&scalars[k], array_size));
            k += 1;
        }
        Freivald { x: vectors }
    }

    /// The length of the verification vectors.
    pub fn size(&self) -> (n: usize)
        ensures
            n == self.spec_size(),
    {
        proof {
            use_type_invariant(self);
        }
        self.x[0].len()
    }

    /// The number of verification vectors.
    pub fn count(&self) -> (n: usize)
        ensures
            n == self@.len(),
            n >= 1,
    {
        proof {
            use_type_invariant(self);
        }
        self.x.len()
    }

    /// Verification vector `k`.
    pub fn vector(&self, k: usize) -> (v: &Vector)
        requires
            k < self@.len(),
        ensures
            v@ == self@[k as int],
    {
        &self.x[k]
    }

    /// Checks the claimed product `supposed_ab` of `matrix_a` and
    /// `matrix_b` against every verification vector `v`, by comparing
    /// `matrix_a * (matrix_b * v)` with `supposed_ab * v`. The result is `false`
    /// at the first vector for which the two differ and `true` if there is
    /// none; for the exact product it is always `true`.
    ///
    /// The matrices must be square, of the verifier's size.
    pub fn verify(&self, matrix_a: &Matrix, matrix_b: &Matrix, supposed_ab: &Matrix) -> (accepted:
        bool)
        requires
            same_dimensions(matrix_a, matrix_b, supposed_ab),
            matrix_a.rows() == matrix_a.cols(),
            matrix_a.rows() == self.spec_size(),
        ensures
            accepted == self.accepts(matrix_a@, matrix_b@, supposed_ab@),
            supposed_ab@ == mat_mul(matrix_a@, matrix_b@, matrix_a.rows()) ==> accepted,
    {
        proof {
            use_type_invariant(self);
            use_type_invariant(matrix_a);
            use_type_invariant(matrix_b);
            if supposed_ab@ == mat_mul(matrix_a@, matrix_b@, matrix_a.rows()) {
                lemma_exact_product_accepted(
                    self@,
                    matrix_a@,
                    matrix_b@,
                    supposed_ab@,
                    matrix_a.rows(),
                );
            }
        }
        let count = self.x.len();
        let mut k: usize = 0;
        while k < count
            invariant
                count == self.x.len(),
                count == self@.len(),
                k <= count,
                same_dimensions(matrix_a, matrix_b, supposed_ab),
                matrix_a.rows() == matrix_a.cols(),
                forall|j: int| 0 <= j < count ==> (#[trigger] self@[j]).len() == matrix_a.rows(),
                forall|j: int|
                    0 <= j < k ==> passes(#[trigger] self@[j], matrix_a@, matrix_b@, supposed_ab@),
                supposed_ab@ == mat_mul(matrix_a@, matrix_b@, matrix_a.rows()) ==> all_pass(
                    self@,
                    matrix_a@,
                    matrix_b@,
                    supposed_ab@,
                ),
            decreases count - k,
        {
            let v = &self.x[k];
            assert(v@ == self@[k as int]);
            let left = matrix_a.dot(&matrix_b.dot(v));
            let right = supposed_ab.dot(v);
            if !left.equals(&right) {
                return false;
            }
            k += 1;
        }
        true
    }

    /// Checks the claimed product once, with a fresh verifier of one
    /// verification vector: the powers of a random non-zero scalar.
    ///
    /// The matrices must be square and of the same size.
    pub fn verify_once(matrix_a: &Matrix, matrix_b: &Matrix, supposed_ab: &Matrix) -> (accepted:
        bool)
        requires
            same_dimensions(matrix_a, matrix_b, supposed_ab),
            matrix_a.rows() == matrix_a.cols(),
        ensures
            accepted_by_power_vector(accepted, matrix_a@, matrix_b@, supposed_ab@),
            supposed_ab@ == mat_mul(matrix_a@, matrix_b@, matrix_a.rows()) ==> accepted,
    {
        proof {
            use_type_invariant(supposed_ab);
        }
        let freivald = Freivald::new(supposed_ab.dim().0);
        let accepted = freivald.verify(matrix_a, matrix_b, supposed_ab);
        assert(is_power_vector(freivald@[0], matrix_a@.len()) && accepted == passes(
            freivald@[0],
            matrix_a@,
            matrix_b@,
            supposed_ab@,
        ));
        accepted
    }
}

/// One more factor `r` on a power of `r` reduced modulo `p` gives, reduced,
/// the next power.
proof fn lemma_power_step(r: int, i: nat)
    ensures
        (power_mod(r, i) * r) % modulus() == power_mod(r, i + 1),
{
    reveal(pow);
    lemma_mul_mod_noop_left(pow(r, i), r, modulus());
    assert(pow(r, i) * r == r * pow(r, i)) by (nonlinear_arith);
}

/// The verdict is fixed by the vectors and the entries: two verifiers with
/// the same vectors give the same verdict on matrices with the same entries,
/// so that a verifier gives one verdict however often it is asked.
pub proof fn lemma_verdict_determined(
    first: Freivald,
    second: Freivald,
    a: Matrix,
    b: Matrix,
    c: Matrix,
    a_again: Matrix,
    b_again: Matrix,
    c_again: Matrix,
)
    requires
        first@ == second@,
        a@ == a_again@,
        b@ == b_again@,
        c@ == c_again@,
    ensures
        first.accepts(a@, b@, c@) == second.accepts(a_again@, b_again@, c_again@),
{
}

/// An exact product is never rejected: where `c` is `a * b`, with `a` and
/// `b` square of size `n`, the check passes for every vector of length `n`,
/// whatever its entries.
pub proof fn lemma_exact_product_accepted(
    vectors: Seq<Seq<int>>,
    a: Seq<Seq<int>>,
    b: Seq<Seq<int>>,
    c: Seq<Seq<int>>,
    n: nat,
)
    requires
        is_matrix(a, n, n),
        is_matrix(b, n, n),
        c == mat_mul(a, b, n),
        forall|k: int| 0 <= k < vectors.len() ==> (#[trigger] vectors[k]).len() == n,
    ensures
        all_pass(vectors, a, b, c),
{
    assert forall|k: int| 0 <= k < vectors.len() implies passes(#[trigger] vectors[k], a, b, c) by {
        lemma_mat_vec_associative(a, b, vectors[k]);
    }
}

} // verus!
