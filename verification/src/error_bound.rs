//! How many scalars let a wrong product through.
//!
//! The check of the power vector of a scalar `r` against a wrong product
//! passes only where `r` is a root, modulo `p`, of every row of the difference
//! between the true and the claimed product, read as a polynomial. Over a
//! prime field a polynomial of `n` coefficients that is not zero has fewer
//! than `n` roots, so of the `p` scalars fewer than `n` accept.
//!
//! That `p` is prime is a hypothesis of these laws: it is a fact about one
//! large number that is not proved here.

use crate::algebra::{
    column,
    dot,
    geometric,
    is_matrix,
    lemma_mat_vec_associative,
    lemma_sum_congruent,
    lemma_sum_pointwise,
    lemma_sum_scale,
    mat_mul,
    mat_vec,
    sum,
};
use crate::field::modulus;
use crate::freivald::{all_pass, passes};
use vstd::arithmetic::div_mod::{
    lemma_add_mod_noop,
    lemma_fundamental_div_mod,
    lemma_mod_bound,
    lemma_mod_multiples_basic,
    lemma_mul_mod_noop_left,
    lemma_mul_mod_noop_right,
    lemma_small_mod,
    lemma_sub_mod_noop,
};
use vstd::arithmetic::power::pow;
use vstd::prelude::*;
use vstd::set_lib::{
    lemma_int_range,
    lemma_len_subset,
    lemma_len_union,
    lemma_map_size_bound,
    set_int_range,
};

verus! {

/// Whether `p` is a prime number.
pub open spec fn is_prime(p: int) -> bool {
    &&& p > 1
    &&& forall|d: int| 1 < d < p ==> #[trigger] (p % d) != 0
}

/// The value at `x` of the polynomial with the given coefficients, the
/// constant one first.
pub open spec fn polynomial(coefficients: Seq<int>, x: int) -> int
    decreases coefficients.len(),
{
    if coefficients.len() == 0 {
        0
    } else {
        coefficients[0] + x * polynomial(coefficients.skip(1), x)
    }
}

/// Whether some coefficient is not zero in the field.
pub open spec fn is_nonzero_polynomial(coefficients: Seq<int>) -> bool {
    exists|j: int| 0 <= j < coefficients.len() && #[trigger] coefficients[j] % modulus() != 0
}

/// The roots in the field of the polynomial with the given coefficients.
pub open spec fn roots(coefficients: Seq<int>) -> Set<int> {
    Set::new(|x: int| 0 <= x < modulus() && polynomial(coefficients, x) % modulus() == 0)
}

/// The scalars whose power vector passes the check of `c` against `a * b`.
pub open spec fn accepting_scalars(a: Seq<Seq<int>>, b: Seq<Seq<int>>, c: Seq<Seq<int>>) -> Set<
    int,
> {
    Set::new(|r: int| 0 <= r < modulus() && passes(geometric(r, a.len()), a, b, c))
}

/// The quotient of the polynomial by `x - a`: coefficient `k` is the value
/// at `a` of the polynomial made of the coefficients above `k`.
pub open spec fn quotient(coefficients: Seq<int>, a: int) -> Seq<int> {
    Seq::new(
        (coefficients.len() - 1) as nat,
        |k: int| polynomial(coefficients.skip(k + 1), a),
    )
}

/// A prime that divides a product and not its first factor divides the second.
pub proof fn lemma_prime_divides_factor(p: int, a: int, b: int)
    requires
        is_prime(p),
        (a * b) % p == 0,
        a % p != 0,
    ensures
        b % p == 0,
{
    let reduced = a % p;
    lemma_mod_bound(a, p);
    lemma_mul_mod_noop_left(a, b, p);
    lemma_small_factor_divides(p, reduced, b);
}

/// The same for a first factor strictly between 0 and the prime: the
/// remainder of the prime by the factor is a smaller such factor.
proof fn lemma_small_factor_divides(p: int, a: int, b: int)
    requires
        is_prime(p),
        0 < a < p,
        (a * b) % p == 0,
    ensures
        b % p == 0,
    decreases a,
{
    if a == 1 {
        assert(a * b == b) by (nonlinear_arith)
            requires
                a == 1,
        ;
    } else {
        let q = p / a;
        let r = p % a;
        lemma_fundamental_div_mod(p, a);
        lemma_mod_bound(p, a);
        assert(r != 0);
        assert(r * b == p * b - q * (a * b)) by (nonlinear_arith)
            requires
                p == a * q + r,
        ;
        assert((p * b) % p == 0) by {
            lemma_mod_multiples_basic(b, p);
            assert(p * b == b * p) by (nonlinear_arith);
        }
        assert((q * (a * b)) % p == 0) by {
            lemma_mul_mod_noop_right(q, a * b, p);
            assert(q * 0 == 0);
            lemma_small_mod(0, p as nat);
        }
        lemma_sub_mod_noop(p * b, q * (a * b), p);
        lemma_small_mod(0, p as nat);
        lemma_small_factor_divides(p, r, b);
    }
}

/// A polynomial whose coefficients are all zero in the field is zero
/// everywhere in the field.
proof fn lemma_zero_polynomial(coefficients: Seq<int>, x: int)
    requires
        forall|j: int| 0 <= j < coefficients.len() ==> #[trigger] coefficients[j] % modulus() == 0,
    ensures
        polynomial(coefficients, x) % modulus() == 0,
    decreases coefficients.len(),
{
    let p = modulus();
    if coefficients.len() > 0 {
        let rest = coefficients.skip(1);
        assert forall|j: int| 0 <= j < rest.len() implies #[trigger] rest[j] % p == 0 by {
            assert(rest[j] == coefficients[j + 1]);
        }
        lemma_zero_polynomial(rest, x);
        lemma_mul_mod_noop_right(x, polynomial(rest, x), p);
        assert(x * 0 == 0);
        lemma_add_mod_noop(coefficients[0], x * polynomial(rest, x), p);
    }
}

/// The factor theorem: a polynomial differs from its value at `a` by
/// `x - a` times its quotient by `x - a`.
pub proof fn lemma_factor(coefficients: Seq<int>, a: int, x: int)
    requires
        coefficients.len() >= 1,
    ensures
        polynomial(coefficients, x) - polynomial(coefficients, a) == (x - a) * polynomial(
            quotient(coefficients, a),
            x,
        ),
    decreases coefficients.len(),
{
    let rest = coefficients.skip(1);
    let q = quotient(coefficients, a);
    if coefficients.len() == 1 {
        assert(polynomial(rest, x) == 0);
        assert(polynomial(rest, a) == 0);
        assert(polynomial(q, x) == 0);
        assert((x - a) * 0 == 0);
    } else {
        lemma_factor(rest, a, x);
        assert(q.skip(1) =~= quotient(rest, a)) by {
            assert forall|k: int| 0 <= k < q.len() - 1 implies q.skip(1)[k] == quotient(rest, a)[k] by {
                assert(coefficients.skip(k + 2) =~= rest.skip(k + 1));
            }
        }
        assert(q[0] == polynomial(rest, a)) by {
            assert(coefficients.skip(1) =~= rest);
        }
        let (fx, fa, gx) = (polynomial(rest, x), polynomial(rest, a), polynomial(q.skip(1), x));
        assert(x * fx - a * fa == (x - a) * (fa + x * gx)) by (nonlinear_arith)
            requires
                fx - fa == (x - a) * gx,
        ;
    }
}

/// Where a coefficient other than the constant one is not zero in the field,
/// the quotient by `x - a` is not the zero polynomial either.
proof fn lemma_quotient_nonzero(coefficients: Seq<int>, a: int)
    requires
        exists|j: int| 1 <= j < coefficients.len() && #[trigger] coefficients[j] % modulus() != 0,
    ensures
        is_nonzero_polynomial(quotient(coefficients, a)),
    decreases coefficients.len(),
{
    let p = modulus();
    let rest = coefficients.skip(1);
    let q = quotient(coefficients, a);
    if exists|j: int| 1 <= j < rest.len() && #[trigger] rest[j] % p != 0 {
        lemma_quotient_nonzero(rest, a);
        let inner = quotient(rest, a);
        let k = choose|k: int| 0 <= k < inner.len() && #[trigger] inner[k] % p != 0;
        assert(coefficients.skip(k + 2) =~= rest.skip(k + 1));
        assert(q[k + 1] % p != 0);
    } else {
        let j = choose|j: int| 1 <= j < coefficients.len() && #[trigger] coefficients[j] % p != 0;
        assert(j == 1) by {
            if j > 1 {
                assert(rest[j - 1] == coefficients[j]);
            }
        }
        let above = rest.skip(1);
        assert forall|i: int| 0 <= i < above.len() implies #[trigger] above[i] % p == 0 by {
            assert(above[i] == rest[i + 1]);
        }
        lemma_zero_polynomial(above, a);
        lemma_mul_mod_noop_right(a, polynomial(above, a), p);
        assert(a * 0 == 0);
        lemma_add_mod_noop(rest[0], a * polynomial(above, a), p);
        lemma_small_mod(0, p as nat);
        assert(q[0] == polynomial(rest, a)) by {
            assert(coefficients.skip(1) =~= rest);
        }
        assert(q[0] % p != 0) by {
            lemma_mod_bound(rest[0], p);
            lemma_small_mod((rest[0] % p) as nat, p as nat);
        }
    }
}

/// Over a prime field, a polynomial of `n` coefficients that is not zero
/// has fewer than `n` roots.
pub proof fn lemma_roots_bound(coefficients: Seq<int>)
    requires
        is_prime(modulus()),
        is_nonzero_polynomial(coefficients),
    ensures
        roots(coefficients).finite(),
        roots(coefficients).len() < coefficients.len(),
    decreases coefficients.len(),
{
    let p = modulus();
    let found = roots(coefficients);
    lemma_int_range(0, p);
    assert(found.subset_of(set_int_range(0, p)));
    lemma_len_subset(found, set_int_range(0, p));
    if found.len() > 0 {
        let a = found.choose();
        assert(found.contains(a));
        if exists|j: int| 1 <= j < coefficients.len() && #[trigger] coefficients[j] % p != 0 {
            let q = quotient(coefficients, a);
            lemma_quotient_nonzero(coefficients, a);
            lemma_roots_bound(q);
            assert forall|x: int| found.contains(x) implies #[trigger] roots(q).insert(a).contains(
                x,
            ) by {
                if x != a {
                    lemma_factor(coefficients, a, x);
                    let (fx, fa, gx) = (
                        polynomial(coefficients, x),
                        polynomial(coefficients, a),
                        polynomial(q, x),
                    );
                    lemma_sub_mod_noop(fx, fa, p);
                    lemma_small_mod(0, p as nat);
                    assert(((x - a) * gx) % p == 0);
                    assert((x - a) % p != 0) by {
                        if x > a {
                            lemma_small_mod((x - a) as nat, p as nat);
                        } else {
                            lemma_small_mod((x - a + p) as nat, p as nat);
                            lemma_mod_multiples_basic(1, p);
                            lemma_add_mod_noop(x - a, p, p);
                            lemma_mod_bound(x - a, p);
                            lemma_small_mod(((x - a) % p) as nat, p as nat);
                        }
                    }
                    lemma_prime_divides_factor(p, x - a, gx);
                }
            }
            assert(found.subset_of(roots(q).insert(a)));
            lemma_len_subset(found, roots(q).insert(a));
        } else {
            // only the constant coefficient is not zero: there is no root
            let rest = coefficients.skip(1);
            assert forall|i: int| 0 <= i < rest.len() implies #[trigger] rest[i] % p == 0 by {
                assert(rest[i] == coefficients[i + 1]);
            }
            lemma_zero_polynomial(rest, a);
            lemma_mul_mod_noop_right(a, polynomial(rest, a), p);
            assert(a * 0 == 0);
            lemma_add_mod_noop(coefficients[0], a * polynomial(rest, a), p);
            lemma_small_mod(0, p as nat);
            lemma_mod_bound(coefficients[0], p);
            lemma_small_mod((coefficients[0] % p) as nat, p as nat);
            let j = choose|j: int|
                0 <= j < coefficients.len() && #[trigger] coefficients[j] % p != 0;
            assert(j == 0);
            assert(false);
        }
    }
}

/// The first term of a sum comes apart from the rest.
proof fn lemma_sum_first(f: spec_fn(int) -> int, n: nat)
    requires
        n >= 1,
    ensures
        sum(f, n) == f(0) + sum(|j: int| f(j + 1), (n - 1) as nat),
    decreases n,
{
    let shifted = |j: int| f(j + 1);
    if n > 1 {
        lemma_sum_first(f, (n - 1) as nat);
        assert(sum(shifted, (n - 1) as nat) == sum(shifted, (n - 2) as nat) + shifted(n - 2));
    } else {
        assert(sum(f, 1) == sum(f, 0) + f(0));
        assert(sum(shifted, 0) == 0);
    }
}

/// A polynomial is the sum of its coefficients times the powers of `x`.
proof fn lemma_polynomial_is_sum(coefficients: Seq<int>, x: int)
    ensures
        polynomial(coefficients, x) == sum(|j: int| coefficients[j] * pow(x, j as nat), coefficients.len()),
    decreases coefficients.len(),
{
    let n = coefficients.len();
    let terms = |j: int| coefficients[j] * pow(x, j as nat);
    if n > 0 {
        let rest = coefficients.skip(1);
        let rest_terms = |j: int| rest[j] * pow(x, j as nat);
        let m = (n - 1) as nat;
        lemma_polynomial_is_sum(rest, x);
        lemma_sum_first(terms, n);
        lemma_sum_scale(x, rest_terms, m);
        assert forall|j: int| 0 <= j < m implies #[trigger] terms(j + 1) == x * rest_terms(j) by {
            reveal(pow);
            let (c, y) = (coefficients[j + 1], pow(x, j as nat));
            assert(pow(x, (j + 1) as nat) == x * y);
            assert(c * (x * y) == x * (c * y)) by (nonlinear_arith);
        }
        lemma_sum_pointwise(|j: int| terms(j + 1), |j: int| x * rest_terms(j), m);
        assert(terms(0) == coefficients[0]) by {
            reveal(pow);
            assert(pow(x, 0) == 1);
        }
    }
}

/// The inner product of a row with the power vector of `r` is the value at
/// `r` of the row read as a polynomial, in the field.
pub proof fn lemma_dot_with_powers(row: Seq<int>, r: int)
    ensures
        dot(row, geometric(r, row.len())) == polynomial(row, r) % modulus(),
{
    let p = modulus();
    let n = row.len();
    let v = geometric(r, n);
    let reduced = |j: int| row[j] * v[j];
    let exact = |j: int| row[j] * pow(r, j as nat);
    assert forall|j: int| 0 <= j < n implies (#[trigger] reduced(j)) % p == exact(j) % p by {
        lemma_mul_mod_noop_right(row[j], pow(r, j as nat), p);
    }
    lemma_sum_congruent(reduced, exact, n);
    lemma_polynomial_is_sum(row, r);
}

/// The polynomial of the differences of two rows of coefficients is the
/// difference of their polynomials.
proof fn lemma_polynomial_difference(f: Seq<int>, g: Seq<int>, x: int)
    requires
        f.len() == g.len(),
    ensures
        polynomial(Seq::new(f.len(), |j: int| f[j] - g[j]), x) == polynomial(f, x) - polynomial(
            g,
            x,
        ),
    decreases f.len(),
{
    let d = Seq::new(f.len(), |j: int| f[j] - g[j]);
    if f.len() > 0 {
        lemma_polynomial_difference(f.skip(1), g.skip(1), x);
        assert(d.skip(1) =~= Seq::new(f.skip(1).len(), |j: int| f.skip(1)[j] - g.skip(1)[j]));
        let (u, w) = (polynomial(f.skip(1), x), polynomial(g.skip(1), x));
        assert(x * (u - w) == x * u - x * w) by (nonlinear_arith);
    }
}

/// The error bound of the check. Over a prime field, let `c` be a wrong
/// product: an `n` by `n` matrix other than `a * b`. Then of the `p`
/// scalars of the field fewer than `n` have a power vector for which the
/// check passes. A verifier that draws its scalar uniformly among the `p - 1`
/// that are not zero thus lets `c` through with probability at most
/// `(n - 1) / (p - 1)` for each vector.
pub proof fn lemma_wrong_product_rarely_passes(
    a: Seq<Seq<int>>,
    b: Seq<Seq<int>>,
    c: Seq<Seq<int>>,
    n: nat,
)
    requires
        is_prime(modulus()),
        is_matrix(a, n, n),
        is_matrix(b, n, n),
        is_matrix(c, n, n),
        c != mat_mul(a, b, n),
    ensures
        accepting_scalars(a, b, c).finite(),
        accepting_scalars(a, b, c).len() < n,
{
    let p = modulus();
    let product = mat_mul(a, b, n);
    // a row and a column in which the claimed product is wrong
    assert(exists|i: int| 0 <= i < n && #[trigger] c[i] != product[i]) by {
        if forall|i: int| 0 <= i < n ==> #[trigger] c[i] == product[i] {
            assert(c =~= product);
        }
    }
    let i = choose|i: int| 0 <= i < n && #[trigger] c[i] != product[i];
    assert(exists|j: int| 0 <= j < n && #[trigger] c[i][j] != product[i][j]) by {
        if forall|j: int| 0 <= j < n ==> #[trigger] c[i][j] == product[i][j] {
            assert(c[i] =~= product[i]);
        }
    }
    let j = choose|j: int| 0 <= j < n && #[trigger] c[i][j] != product[i][j];
    let difference = Seq::new(n, |j: int| product[i][j] - c[i][j]);
    assert(is_nonzero_polynomial(difference)) by {
        let d = difference[j];
        assert(0 <= c[i][j] < p);
        assert(0 <= product[i][j] < p) by {
            lemma_mod_bound(sum(|t: int| a[i][t] * column(b, j)[t], a[i].len()), p);
        }
        if d > 0 {
            lemma_small_mod(d as nat, p as nat);
        } else {
            lemma_small_mod((d + p) as nat, p as nat);
            lemma_mod_multiples_basic(1, p);
            lemma_add_mod_noop(d, p, p);
            lemma_mod_bound(d, p);
            lemma_small_mod((d % p) as nat, p as nat);
        }
        assert(difference[j] % p != 0);
    }
    lemma_roots_bound(difference);
    // every accepting scalar is a root of that row's difference
    assert forall|r: int| accepting_scalars(a, b, c).contains(r) implies #[trigger] roots(
        difference,
    ).contains(r) by {
        let v = geometric(r, n);
        lemma_mat_vec_associative(a, b, v);
        assert(mat_vec(product, v)[i] == mat_vec(c, v)[i]);
        lemma_dot_with_powers(product[i], r);
        lemma_dot_with_powers(c[i], r);
        lemma_polynomial_difference(product[i], c[i], r);
        lemma_sub_mod_noop(polynomial(product[i], r), polynomial(c[i], r), p);
        lemma_small_mod(0, p as nat);
    }
    assert(accepting_scalars(a, b, c).subset_of(roots(difference)));
    lemma_len_subset(accepting_scalars(a, b, c), roots(difference));
}

/// The sequences of `k` scalars of the field whose power vectors all pass
/// the check of `c` against `a * b`: the draws of `k` scalars for which a
/// verifier of `k` vectors accepts.
pub open spec fn accepting_tuples(
    a: Seq<Seq<int>>,
    b: Seq<Seq<int>>,
    c: Seq<Seq<int>>,
    k: nat,
) -> Set<Seq<int>> {
    Set::new(
        |scalars: Seq<int>|
            {
                &&& scalars.len() == k
                &&& forall|i: int| 0 <= i < k ==> 0 <= #[trigger] scalars[i] < modulus()
                &&& all_pass(scalars.map_values(|r: int| geometric(r, a.len())), a, b, c)
            },
    )
}

/// The sequences of `k` scalars that are all taken from `allowed`.
pub open spec fn tuples(allowed: Set<int>, k: nat) -> Set<Seq<int>> {
    Set::new(
        |scalars: Seq<int>|
            scalars.len() == k && forall|i: int|
                0 <= i < k ==> allowed.contains(#[trigger] scalars[i]),
    )
}

/// The sequences of `shorter` with one scalar of `allowed` added at the end.
pub open spec fn extended(shorter: Set<Seq<int>>, allowed: Set<int>) -> Set<Seq<int>> {
    Set::new(
        |scalars: Seq<int>|
            scalars.len() >= 1 && shorter.contains(scalars.drop_last()) && allowed.contains(
                scalars.last(),
            ),
    )
}

/// A verifier whose vectors are the power vectors of the given scalars
/// accepts exactly where every one of the scalars is an accepting one.
pub proof fn lemma_all_pass_iff_all_scalars_accept(
    scalars: Seq<int>,
    a: Seq<Seq<int>>,
    b: Seq<Seq<int>>,
    c: Seq<Seq<int>>,
)
    requires
        forall|k: int| 0 <= k < scalars.len() ==> 0 <= #[trigger] scalars[k] < modulus(),
    ensures
        all_pass(scalars.map_values(|r: int| geometric(r, a.len())), a, b, c) <==> forall|k: int|
            0 <= k < scalars.len() ==> accepting_scalars(a, b, c).contains(#[trigger] scalars[k]),
{
    let vectors = scalars.map_values(|r: int| geometric(r, a.len()));
    if all_pass(vectors, a, b, c) {
        assert forall|k: int| 0 <= k < scalars.len() implies accepting_scalars(a, b, c).contains(
            #[trigger] scalars[k],
        ) by {
            assert(passes(vectors[k], a, b, c));
        }
    }
    if forall|k: int|
        0 <= k < scalars.len() ==> accepting_scalars(a, b, c).contains(#[trigger] scalars[k]) {
        assert forall|k: int| 0 <= k < vectors.len() implies passes(#[trigger] vectors[k], a, b, c) by {
            assert(accepting_scalars(a, b, c).contains(scalars[k]));
        }
    }
}

/// Adding one of finitely many scalars to each of finitely many sequences
/// gives at most as many sequences as the product of the two numbers.
proof fn lemma_extended_bound(shorter: Set<Seq<int>>, allowed: Set<int>)
    requires
        shorter.finite(),
        allowed.finite(),
    ensures
        extended(shorter, allowed).finite(),
        extended(shorter, allowed).len() <= shorter.len() * allowed.len(),
    decreases allowed.len(),
{
    if allowed.len() == 0 {
        assert(allowed =~= Set::empty());
        assert(extended(shorter, allowed) =~= Set::empty());
        assert(shorter.len() * 0 == 0);
    } else {
        let r = allowed.choose();
        let others = allowed.remove(r);
        let push = |scalars: Seq<int>| scalars.push(r);
        let with_r = shorter.map(push);
        lemma_extended_bound(shorter, others);
        lemma_map_size_bound(shorter, with_r, push);
        assert(extended(shorter, allowed) =~= extended(shorter, others).union(with_r)) by {
            assert forall|scalars: Seq<int>| extended(shorter, allowed).contains(
                scalars,
            ) implies #[trigger] extended(shorter, others).union(with_r).contains(scalars) by {
                if scalars.last() == r {
                    assert(scalars =~= push(scalars.drop_last()));
                    assert(with_r.contains(scalars));
                }
            }
            assert forall|scalars: Seq<int>| #[trigger] with_r.contains(scalars) implies extended(
                shorter,
                allowed,
            ).contains(scalars) by {
                let before = choose|before: Seq<int>|
                    shorter.contains(before) && scalars == push(before);
                assert(scalars.drop_last() =~= before);
            }
        }
        lemma_len_union(extended(shorter, others), with_r);
        assert(shorter.len() * allowed.len() == shorter.len() * others.len() + shorter.len())
            by (nonlinear_arith)
            requires
                allowed.len() == others.len() + 1,
        ;
    }
}

/// There are at most `m^k` sequences of `k` scalars taken from a set of `m`.
pub proof fn lemma_tuples_bound(allowed: Set<int>, k: nat)
    requires
        allowed.finite(),
    ensures
        tuples(allowed, k).finite(),
        tuples(allowed, k).len() <= pow(allowed.len() as int, k),
    decreases k,
{
    reveal(pow);
    if k == 0 {
        assert(tuples(allowed, 0) =~= Set::empty().insert(Seq::<int>::empty())) by {
            assert forall|scalars: Seq<int>| #[trigger] tuples(allowed, 0).contains(
                scalars,
            ) implies scalars == Seq::<int>::empty() by {
                assert(scalars =~= Seq::<int>::empty());
            }
        }
    } else {
        let shorter = tuples(allowed, (k - 1) as nat);
        lemma_tuples_bound(allowed, (k - 1) as nat);
        lemma_extended_bound(shorter, allowed);
        assert(tuples(allowed, k).subset_of(extended(shorter, allowed))) by {
            assert forall|scalars: Seq<int>| #[trigger] tuples(allowed, k).contains(
                scalars,
            ) implies extended(shorter, allowed).contains(scalars) by {
                let before = scalars.drop_last();
                assert forall|i: int| 0 <= i < k - 1 implies allowed.contains(
                    #[trigger] before[i],
                ) by {
                    assert(before[i] == scalars[i]);
                }
                assert(allowed.contains(scalars[k - 1]));
            }
        }
        lemma_len_subset(tuples(allowed, k), extended(shorter, allowed));
        let (m, t, bound) = (
            allowed.len() as int,
            shorter.len() as int,
            pow(allowed.len() as int, (k - 1) as nat),
        );
        assert(t * m <= m * bound) by (nonlinear_arith)
            requires
                0 <= t <= bound,
                0 <= m,
        ;
    }
}

/// A power grows with its base, where the bases are not negative.
proof fn lemma_pow_base_increases(x: int, y: int, k: nat)
    requires
        0 <= x <= y,
    ensures
        0 <= pow(x, k) <= pow(y, k),
    decreases k,
{
    reveal(pow);
    if k > 0 {
        lemma_pow_base_increases(x, y, (k - 1) as nat);
        let (s, t) = (pow(x, (k - 1) as nat), pow(y, (k - 1) as nat));
        assert(0 <= x * s <= y * t) by (nonlinear_arith)
            requires
                0 <= x <= y,
                0 <= s <= t,
        ;
    }
}

/// The error bound for a verifier of `k` vectors. Over a prime field, let
/// `c` be a wrong product: an `n` by `n` matrix other than `a * b`. Then of
/// the `p^k` sequences of `k` scalars at most `(n - 1)^k` give a verifier that
/// accepts `c`. A verifier that draws its `k` scalars uniformly and
/// independently among those that are not zero thus lets `c` through with
/// probability at most `((n - 1) / (p - 1))^k`.
pub proof fn lemma_wrong_product_rarely_passes_every_vector(
    a: Seq<Seq<int>>,
    b: Seq<Seq<int>>,
    c: Seq<Seq<int>>,
    n: nat,
    k: nat,
)
    requires
        is_prime(modulus()),
        is_matrix(a, n, n),
        is_matrix(b, n, n),
        is_matrix(c, n, n),
        c != mat_mul(a, b, n),
    ensures
        accepting_tuples(a, b, c, k).finite(),
        accepting_tuples(a, b, c, k).len() <= pow(n - 1, k),
{
    let allowed = accepting_scalars(a, b, c);
    lemma_wrong_product_rarely_passes(a, b, c, n);
    lemma_tuples_bound(allowed, k);
    assert(accepting_tuples(a, b, c, k).subset_of(tuples(allowed, k))) by {
        assert forall|scalars: Seq<int>| #[trigger] accepting_tuples(a, b, c, k).contains(
            scalars,
        ) implies tuples(allowed, k).contains(scalars) by {
            lemma_all_pass_iff_all_scalars_accept(scalars, a, b, c);
        }
    }
    lemma_len_subset(accepting_tuples(a, b, c, k), tuples(allowed, k));
    lemma_pow_base_increases(allowed.len() as int, n - 1, k);
}

} // verus!
