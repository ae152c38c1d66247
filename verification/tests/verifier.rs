use ark_bls12_381::Fq;
use ark_ff::PrimeField;
use freivald::{geometric_vector, FieldElement, Freivald, Matrix, Vector};

fn element(x: &Fq) -> FieldElement {
    FieldElement::from_limbs(x.into_bigint().0).unwrap()
}

fn matrix(m: &ndarray::Array2<Fq>) -> Matrix {
    let rows: Vec<Vec<FieldElement>> = m
        .rows()
        .into_iter()
        .map(|row| row.iter().map(element).collect())
        .collect();
    Matrix::from_rows(&rows).unwrap()
}

fn small_matrix(rows: &[&[u64]]) -> Matrix {
    let rows: Vec<Vec<FieldElement>> = rows
        .iter()
        .map(|row| row.iter().map(|&x| FieldElement::from_u64(x)).collect())
        .collect();
    Matrix::from_rows(&rows).unwrap()
}

fn random_matrix(n: usize) -> ndarray::Array2<Fq> {
    ndarray::Array2::from_shape_fn((n, n), |_| ark_std::rand::random())
}

fn values(v: &Vector) -> Vec<Fq> {
    (0..v.len())
        .map(|i| Fq::from_bigint(ark_ff::BigInt::new(v.get(i).limbs())).unwrap())
        .collect()
}

fn powers(r: Fq, n: usize) -> Vec<Fq> {
    let mut out = Vec::new();
    let mut power = Fq::from(1u64);
    for _ in 0..n {
        out.push(power);
        power *= r;
    }
    out
}

#[test]
fn geometric_vector_holds_the_powers_of_three() {
    let v = geometric_vector(&FieldElement::from_u64(3), 5);
    assert_eq!(v.len(), 5);
    let limbs: Vec<[u64; 6]> = (0..5).map(|i| v.get(i).limbs()).collect();
    assert_eq!(
        limbs,
        vec![
            [1, 0, 0, 0, 0, 0],
            [3, 0, 0, 0, 0, 0],
            [9, 0, 0, 0, 0, 0],
            [27, 0, 0, 0, 0, 0],
            [81, 0, 0, 0, 0, 0]
        ]
    );
}

#[test]
fn geometric_vector_multiplies_by_the_scalar_not_by_the_last_power() {
    // repeated squaring would give 2, 4, 16, 256
    let v = geometric_vector(&FieldElement::from_u64(2), 5);
    assert_eq!(v.get(3).limbs(), [8, 0, 0, 0, 0, 0]);
    assert_eq!(v.get(4).limbs(), [16, 0, 0, 0, 0, 0]);
}

#[test]
fn geometric_vector_reduces_modulo_the_field_order() {
    let minus_one = element(&-Fq::from(1u64));
    let v = geometric_vector(&minus_one, 4);
    assert_eq!(v.get(0).limbs(), [1, 0, 0, 0, 0, 0]);
    assert_eq!(v.get(1).limbs(), minus_one.limbs());
    assert_eq!(v.get(2).limbs(), [1, 0, 0, 0, 0, 0]);
    assert_eq!(v.get(3).limbs(), minus_one.limbs());
}

#[test]
fn geometric_vector_carries_into_the_higher_limbs() {
    let r = FieldElement::from_u64(1 << 63);
    let v = geometric_vector(&r, 3);
    assert_eq!(v.get(2).limbs(), [0, 1 << 62, 0, 0, 0, 0]);
}

#[test]
fn geometric_vector_agrees_with_the_field_library() {
    let r: Fq = ark_std::rand::random();
    let v = geometric_vector(&element(&r), 12);
    assert_eq!(values(&v), powers(r, 12));
}

#[test]
fn geometric_vector_of_length_zero_is_empty() {
    assert_eq!(geometric_vector(&FieldElement::from_u64(3), 0).len(), 0);
}

#[test]
fn geometric_vector_of_zero_is_the_first_unit_vector() {
    let v = geometric_vector(&FieldElement::zero(), 4);
    let limbs: Vec<[u64; 6]> = (0..4).map(|i| v.get(i).limbs()).collect();
    assert_eq!(
        limbs,
        vec![
            [1, 0, 0, 0, 0, 0],
            [0, 0, 0, 0, 0, 0],
            [0, 0, 0, 0, 0, 0],
            [0, 0, 0, 0, 0, 0]
        ]
    );
}

#[test]
fn verifier_from_a_zero_scalar_checks_the_first_column_only() {
    let f = Freivald::from_scalars(2, &vec![FieldElement::zero()]);
    assert_eq!(f.vector(0).get(0).limbs(), [1, 0, 0, 0, 0, 0]);
    assert_eq!(f.vector(0).get(1).limbs(), [0, 0, 0, 0, 0, 0]);
    let identity = small_matrix(&[&[1, 0], &[0, 1]]);
    // wrong in the second column only: the unit vector does not see it
    let wrong_second = small_matrix(&[&[1, 5], &[0, 1]]);
    assert!(f.verify(&identity, &identity, &wrong_second));
    // wrong in the first column: seen
    let wrong_first = small_matrix(&[&[1, 0], &[5, 1]]);
    assert!(!f.verify(&identity, &identity, &wrong_first));
}

#[test]
fn new_verifier_never_uses_a_zero_scalar() {
    for _ in 0..200 {
        let f = Freivald::new(2);
        assert_eq!(f.vector(0).get(0).limbs(), [1, 0, 0, 0, 0, 0]);
        assert!(!f.vector(0).get(1).is_zero());
    }
}

#[test]
fn new_verifier_has_one_vector_of_the_given_size() {
    let f = Freivald::new(7);
    assert_eq!(f.count(), 1);
    assert_eq!(f.size(), 7);
    assert_eq!(f.vector(0).len(), 7);
}

#[test]
fn new_verifier_of_size_zero_has_an_empty_vector() {
    let f = Freivald::new(0);
    assert_eq!(f.count(), 1);
    assert_eq!(f.size(), 0);
}

#[test]
fn verifier_has_as_many_vectors_as_asked_for() {
    let f = Freivald::with_vectors(4, 6);
    assert_eq!(f.count(), 6);
    assert_eq!(f.size(), 4);
    for k in 0..6 {
        assert_eq!(f.vector(k).len(), 4);
    }
}

#[test]
fn every_vector_holds_the_powers_of_its_second_entry() {
    let f = Freivald::with_vectors(9, 5);
    for k in 0..5 {
        let v = values(f.vector(k));
        assert_eq!(v, powers(v[1], 9));
    }
}

#[test]
fn vectors_are_drawn_independently() {
    let f = Freivald::with_vectors(2, 8);
    let first = f.vector(0).get(1).limbs();
    assert!((1..8).any(|k| f.vector(k).get(1).limbs() != first));
    let g = Freivald::new(2);
    assert_ne!(g.vector(0).get(1).limbs(), first);
}

#[test]
fn verifier_from_scalars_keeps_their_order() {
    let scalars = vec![
        FieldElement::from_u64(2),
        FieldElement::from_u64(10),
        FieldElement::from_u64(1),
    ];
    let f = Freivald::from_scalars(3, &scalars);
    assert_eq!(f.count(), 3);
    assert_eq!(f.size(), 3);
    assert_eq!(f.vector(0).get(2).limbs(), [4, 0, 0, 0, 0, 0]);
    assert_eq!(f.vector(1).get(2).limbs(), [100, 0, 0, 0, 0, 0]);
    assert_eq!(f.vector(2).get(2).limbs(), [1, 0, 0, 0, 0, 0]);
}

#[test]
fn identity_times_identity_is_identity() {
    let identity = small_matrix(&[&[1, 0], &[0, 1]]);
    for _ in 0..50 {
        let f = Freivald::new(2);
        assert!(f.verify(&identity, &identity, &identity));
    }
    assert!(Freivald::verify_once(&identity, &identity, &identity));
}

#[test]
fn small_product_is_accepted() {
    // [[1, 2], [3, 4]] * [[5, 6], [7, 8]] = [[19, 22], [43, 50]]
    let a = small_matrix(&[&[1, 2], &[3, 4]]);
    let b = small_matrix(&[&[5, 6], &[7, 8]]);
    let c = small_matrix(&[&[19, 22], &[43, 50]]);
    assert!(Freivald::with_vectors(2, 4).verify(&a, &b, &c));
    assert!(Freivald::verify_once(&a, &b, &c));
    assert!(Freivald::from_scalars(2, &vec![FieldElement::from_u64(3)]).verify(&a, &b, &c));
}

#[test]
fn small_wrong_product_is_rejected() {
    let a = small_matrix(&[&[1, 2], &[3, 4]]);
    let b = small_matrix(&[&[5, 6], &[7, 8]]);
    let c = small_matrix(&[&[19, 22], &[43, 51]]);
    assert!(!Freivald::with_vectors(2, 4).verify(&a, &b, &c));
    assert!(!Freivald::verify_once(&a, &b, &c));
    // the factors the other way round: [[23, 34], [31, 46]]
    let d = small_matrix(&[&[23, 34], &[31, 46]]);
    assert!(!Freivald::verify_once(&a, &b, &d));
    assert!(Freivald::verify_once(&b, &a, &d));
}

#[test]
fn random_product_is_accepted_once() {
    for _ in 0..20 {
        let a = random_matrix(3);
        let b = random_matrix(3);
        let c = a.dot(&b);
        assert!(Freivald::verify_once(&matrix(&a), &matrix(&b), &matrix(&c)));
    }
}

#[test]
fn unrelated_matrix_is_rejected() {
    let mut accepted = 0;
    for _ in 0..1000 {
        let a = random_matrix(3);
        let b = random_matrix(3);
        let c = random_matrix(3);
        if Freivald::new(3).verify(&matrix(&a), &matrix(&b), &matrix(&c)) {
            accepted += 1;
        }
    }
    assert!(accepted <= 1);
}

#[test]
fn freivald_verify_success_test() {
    let size = 40;
    for _ in 0..3 {
        let a = random_matrix(size);
        let a_dot_a = a.dot(&a);
        let f = Freivald::new(size);
        assert!(f.verify(&matrix(&a), &matrix(&a), &matrix(&a_dot_a)));
    }
}

#[test]
fn freivald_verify_fail_test() {
    let size = 40;
    for _ in 0..3 {
        let a = random_matrix(size);
        let b = random_matrix(size);
        let a_dot_a = a.dot(&a);
        let f = Freivald::new(size);
        assert!(!f.verify(&matrix(&a), &matrix(&b), &matrix(&a_dot_a)));
    }
}

#[test]
fn several_vectors_accept_a_true_product() {
    let a = random_matrix(6);
    let b = random_matrix(6);
    let c = a.dot(&b);
    let f = Freivald::with_vectors(6, 10);
    assert!(f.verify(&matrix(&a), &matrix(&b), &matrix(&c)));
}

#[test]
fn one_wrong_entry_is_rejected() {
    let a = random_matrix(6);
    let b = random_matrix(6);
    let mut c = a.dot(&b);
    c[[4, 5]] += Fq::from(1u64);
    let f = Freivald::with_vectors(6, 3);
    assert!(!f.verify(&matrix(&a), &matrix(&b), &matrix(&c)));
}

#[test]
fn verify_rejects_at_any_vector() {
    // wrong by a polynomial with the single root 5: the scalar 5 accepts, the others reject
    let identity = small_matrix(&[&[1, 0], &[0, 1]]);
    let minus_four = element(&-Fq::from(4u64));
    let wrong = Matrix::from_rows(&vec![
        vec![minus_four, FieldElement::one()],
        vec![FieldElement::zero(), FieldElement::one()],
    ])
    .unwrap();
    let five = FieldElement::from_u64(5);
    let six = FieldElement::from_u64(6);
    assert!(Freivald::from_scalars(2, &vec![five]).verify(&identity, &identity, &wrong));
    assert!(Freivald::from_scalars(2, &vec![five, five]).verify(&identity, &identity, &wrong));
    assert!(!Freivald::from_scalars(2, &vec![six]).verify(&identity, &identity, &wrong));
    assert!(!Freivald::from_scalars(2, &vec![six, five]).verify(&identity, &identity, &wrong));
    assert!(!Freivald::from_scalars(2, &vec![five, six]).verify(&identity, &identity, &wrong));
    assert!(!Freivald::from_scalars(2, &vec![five, five, six]).verify(&identity, &identity, &wrong));
}

#[test]
fn wrong_product_passes_for_its_roots_only() {
    // identity * identity against identity + D, where row 0 of D is
    // (x - 2)(x - 3) = 6 - 5x + x^2: of all scalars only 2 and 3 accept
    let identity = small_matrix(&[&[1, 0, 0], &[0, 1, 0], &[0, 0, 1]]);
    let minus_five = element(&-Fq::from(5u64));
    let wrong = Matrix::from_rows(&vec![
        vec![FieldElement::from_u64(7), minus_five, FieldElement::one()],
        vec![FieldElement::zero(), FieldElement::one(), FieldElement::zero()],
        vec![FieldElement::zero(), FieldElement::zero(), FieldElement::one()],
    ])
    .unwrap();
    for r in 0..50u64 {
        let f = Freivald::from_scalars(3, &vec![FieldElement::from_u64(r)]);
        assert_eq!(f.verify(&identity, &identity, &wrong), r == 2 || r == 3);
    }
}

#[test]
fn verify_gives_the_same_answer_each_time() {
    let a = random_matrix(4);
    let b = random_matrix(4);
    let right = a.dot(&b);
    let wrong = random_matrix(4);
    let (a, b, right, wrong) = (matrix(&a), matrix(&b), matrix(&right), matrix(&wrong));
    let f = Freivald::with_vectors(4, 3);
    for _ in 0..10 {
        assert!(f.verify(&a, &b, &right));
        assert!(!f.verify(&a, &b, &wrong));
    }
}

#[test]
fn verify_leaves_the_vectors_as_they_were() {
    let f = Freivald::with_vectors(3, 2);
    let before: Vec<Vec<[u64; 6]>> = (0..2)
        .map(|k| (0..3).map(|i| f.vector(k).get(i).limbs()).collect())
        .collect();
    let a = matrix(&random_matrix(3));
    let _ = f.verify(&a, &a, &a);
    let after: Vec<Vec<[u64; 6]>> = (0..2)
        .map(|k| (0..3).map(|i| f.vector(k).get(i).limbs()).collect())
        .collect();
    assert_eq!(before, after);
}

#[test]
fn empty_matrices_are_accepted() {
    let empty = Matrix::from_rows(&Vec::new()).unwrap();
    assert!(Freivald::new(0).verify(&empty, &empty, &empty));
    assert!(Freivald::verify_once(&empty, &empty, &empty));
}

#[test]
fn one_by_one_matrices_multiply_as_scalars() {
    let six = small_matrix(&[&[6]]);
    let seven = small_matrix(&[&[7]]);
    assert!(Freivald::verify_once(&six, &seven, &small_matrix(&[&[42]])));
    assert!(!Freivald::verify_once(&six, &seven, &small_matrix(&[&[41]])));
}
