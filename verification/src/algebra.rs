//! The mathematics that the contracts speak of: vectors and matrices over the
//! field as sequences of canonical representatives, their products, and the
//! laws of finite sums that relate them.

use crate::field::modulus;
use vstd::arithmetic::div_mod::{
    lemma_add_mod_noop,
    lemma_mul_mod_noop_left,
    lemma_mul_mod_noop_right,
};
use vstd::arithmetic::mul::lemma_mul_is_distributive_add;
use vstd::arithmetic::power::pow;
use vstd::prelude::*;

verus! {

/// `f(0) + f(1) + ... + f(n - 1)`.
pub open spec fn sum(f: spec_fn(int) -> int, n: nat) -> int
    decreases n,
{
    if n == 0 {
        0
    } else {
        sum(f, (n - 1) as nat) + f(n - 1)
    }
}

/// The inner product of two sequences in the field: the sum of the products
/// of their entries over the length of the first, reduced modulo `p`.
pub open spec fn dot(a: Seq<int>, b: Seq<int>) -> int {
    sum(|j: int| a[j] * b[j], a.len()) % modulus()
}

/// A vector of `n` canonical representatives.
pub open spec fn is_vector(v: Seq<int>, n: nat) -> bool {
    &&& v.len() == n
    &&& forall|i: int| 0 <= i < n ==> 0 <= #[trigger] v[i] < modulus()
}

/// A matrix of `rows` rows, each a vector of `cols` canonical representatives.
pub open spec fn is_matrix(m: Seq<Seq<int>>, rows: nat, cols: nat) -> bool {
    &&& m.len() == rows
    &&& forall|i: int| 0 <= i < rows ==> is_vector(#[trigger] m[i], cols)
}

/// The product of a matrix and a column vector: entry `i` is the inner
/// product of row `i` with the vector.
pub open spec fn mat_vec(m: Seq<Seq<int>>, v: Seq<int>) -> Seq<int> {
    Seq::new(m.len(), |i: int| dot(m[i], v))
}

/// Column `j` of a matrix.
pub open spec fn column(m: Seq<Seq<int>>, j: int) -> Seq<int> {
    Seq::new(m.len(), |t: int| m[t][j])
}

/// The product of two matrices, the second with `cols` columns: entry
/// `(i, j)` is the inner product of row `i` of the first with column `j` of
/// the second.
pub open spec fn mat_mul(a: Seq<Seq<int>>, b: Seq<Seq<int>>, cols: nat) -> Seq<Seq<int>> {
    Seq::new(a.len(), |i: int| Seq::new(cols, |j: int| dot(a[i], column(b, j))))
}

/// `r` to the power `i` in the field.
pub open spec fn power_mod(r: int, i: nat) -> int {
    pow(r, i) % modulus()
}

/// The geometric sequence `[r^0, r^1, ..., r^(n-1)]` in the field.
pub open spec fn geometric(r: int, n: nat) -> Seq<int> {
    Seq::new(n, |i: int| power_mod(r, i as nat))
}

/// Sums of pointwise equal terms are equal.
pub proof fn lemma_sum_pointwise(f: spec_fn(int) -> int, g: spec_fn(int) -> int, n: nat)
    requires
        forall|i: int| 0 <= i < n ==> #[trigger] f(i) == g(i),
    ensures
        sum(f, n) == sum(g, n),
    decreases n,
{
    if n > 0 {
        lemma_sum_pointwise(f, g, (n - 1) as nat);
    }
}

/// Sums of pointwise congruent terms are congruent.
pub proof fn lemma_sum_congruent(f: spec_fn(int) -> int, g: spec_fn(int) -> int, n: nat)
    requires
        forall|i: int| 0 <= i < n ==> (#[trigger] f(i)) % modulus() == g(i) % modulus(),
    ensures
        sum(f, n) % modulus() == sum(g, n) % modulus(),
    decreases n,
{
    if n > 0 {
        let m = (n - 1) as nat;
        lemma_sum_congruent(f, g, m);
        lemma_add_mod_noop(sum(f, m), f(n - 1), modulus());
        lemma_add_mod_noop(sum(g, m), g(n - 1), modulus());
    }
}

/// A sum of sums is the sum of the terms added pointwise.
pub proof fn lemma_sum_add(f: spec_fn(int) -> int, g: spec_fn(int) -> int, n: nat)
    ensures
        sum(|i: int| f(i) + g(i), n) == sum(f, n) + sum(g, n),
    decreases n,
{
    if n > 0 {
        lemma_sum_add(f, g, (n - 1) as nat);
    }
}

/// A constant factor moves into a sum.
pub proof fn lemma_sum_scale(c: int, f: spec_fn(int) -> int, n: nat)
    ensures
        sum(|i: int| c * f(i), n) == c * sum(f, n),
    decreases n,
{
    if n > 0 {
        let m = (n - 1) as nat;
        lemma_sum_scale(c, f, m);
        lemma_mul_is_distributive_add(c, sum(f, m), f(n - 1));
    }
}

/// The order of summation in a finite double sum does not matter.
pub proof fn lemma_sum_swap(f: spec_fn(int, int) -> int, n: nat, m: nat)
    ensures
        sum(|i: int| sum(|j: int| f(i, j), m), n) == sum(|j: int| sum(|i: int| f(i, j), n), m),
    decreases n,
{
    let rows = |i: int| sum(|j: int| f(i, j), m);
    let cols = |j: int| sum(|i: int| f(i, j), n);
    if n == 0 {
        let zero = |j: int| 0int;
        lemma_sum_pointwise(cols, zero, m);
        lemma_sum_scale(0, zero, m);
        lemma_sum_pointwise(|j: int| 0 * zero(j), zero, m);
    } else {
        let k = (n - 1) as nat;
        let cols_before = |j: int| sum(|i: int| f(i, j), k);
        let last = |j: int| f(n - 1, j);
        lemma_sum_swap(f, k, m);
        lemma_sum_pointwise(|i: int| sum(|j: int| f(i, j), m), rows, k);
        lemma_sum_pointwise(|j: int| sum(|i: int| f(i, j), k), cols_before, m);
        assert(rows(n - 1) == sum(last, m)) by {
            lemma_sum_pointwise(|j: int| f(n - 1, j), last, m);
        }
        lemma_sum_add(cols_before, last, m);
        lemma_sum_pointwise(|j: int| cols_before(j) + last(j), cols, m);
    }
}

/// One entry of the associativity law: row `row` of `a`, of the length of
/// `b`, times `b * v` is congruent to row `row` of `a * b` times `v`.
proof fn lemma_row_associative(row: Seq<int>, b: Seq<Seq<int>>, v: Seq<int>)
    requires
        row.len() == b.len(),
        forall|t: int| 0 <= t < b.len() ==> (#[trigger] b[t]).len() == v.len(),
    ensures
        dot(row, mat_vec(b, v)) == dot(Seq::new(v.len(), |j: int| dot(row, column(b, j))), v),
{
    let p = modulus();
    let k = row.len();
    let c = v.len();
    let bv = mat_vec(b, v);
    let ab = Seq::new(c, |j: int| dot(row, column(b, j)));
    // the triple products, summed in either order
    let term = |t: int, j: int| row[t] * (b[t][j] * v[j]);
    let by_rows = |t: int| sum(|j: int| term(t, j), c);
    let by_cols = |j: int| sum(|t: int| term(t, j), k);

    // left side: sum over t of row[t] * (b * v)[t]
    let left = |t: int| row[t] * bv[t];
    assert forall|t: int| 0 <= t < k implies (#[trigger] left(t)) % p == by_rows(t) % p by {
        let inner = |j: int| b[t][j] * v[j];
        assert(bv[t] == sum(inner, c) % p) by {
            lemma_sum_pointwise(|j: int| b[t][j] * v[j], inner, c);
        }
        lemma_mul_mod_noop_right(row[t], sum(inner, c), p);
        lemma_sum_scale(row[t], inner, c);
        lemma_sum_pointwise(|j: int| row[t] * inner(j), |j: int| term(t, j), c);
    }
    lemma_sum_congruent(left, by_rows, k);
    lemma_sum_pointwise(|t: int| row[t] * bv[t], left, k);

    // right side: sum over j of (row * b)[j] * v[j]
    let right = |j: int| ab[j] * v[j];
    assert forall|j: int| 0 <= j < c implies (#[trigger] right(j)) % p == by_cols(j) % p by {
        let col = column(b, j);
        let inner = |t: int| row[t] * b[t][j];
        assert(ab[j] == sum(inner, k) % p) by {
            lemma_sum_pointwise(|t: int| row[t] * col[t], inner, k);
        }
        lemma_mul_mod_noop_left(sum(inner, k), v[j], p);
        lemma_sum_scale(v[j], inner, k);
        assert forall|t: int| 0 <= t < k implies v[j] * #[trigger] inner(t) == term(t, j) by {
            let (x, y, z) = (row[t], b[t][j], v[j]);
            assert(z * (x * y) == x * (y * z)) by (nonlinear_arith);
        }
        lemma_sum_pointwise(|t: int| v[j] * inner(t), |t: int| term(t, j), k);
    }
    lemma_sum_congruent(right, by_cols, c);
    lemma_sum_pointwise(|j: int| ab[j] * v[j], right, c);

    lemma_sum_swap(term, k, c);
    lemma_sum_pointwise(|t: int| sum(|j: int| term(t, j), c), by_rows, k);
    lemma_sum_pointwise(|j: int| sum(|t: int| term(t, j), k), by_cols, c);
}

/// Matrix-vector multiplication is associative with matrix multiplication:
/// `a * (b * v) == (a * b) * v`, where the rows of `a` have as many entries
/// as `b` has rows and the rows of `b` as many as `v`.
pub proof fn lemma_mat_vec_associative(a: Seq<Seq<int>>, b: Seq<Seq<int>>, v: Seq<int>)
    requires
        forall|i: int| 0 <= i < a.len() ==> (#[trigger] a[i]).len() == b.len(),
        forall|t: int| 0 <= t < b.len() ==> (#[trigger] b[t]).len() == v.len(),
    ensures
        mat_vec(a, mat_vec(b, v)) == mat_vec(mat_mul(a, b, v.len()), v),
{
    let ab = mat_mul(a, b, v.len());
    assert forall|i: int| 0 <= i < a.len() implies mat_vec(a, mat_vec(b, v))[i] == mat_vec(
        ab,
        v,
    )[i] by {
        lemma_row_associative(a[i], b, v);
        assert(ab[i] =~= Seq::new(v.len(), |j: int| dot(a[i], column(b, j))));
    }
    assert(mat_vec(a, mat_vec(b, v)) =~= mat_vec(ab, v));
}

} // verus!
