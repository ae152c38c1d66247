use freivald::{check_matrix_dimensions, FieldElement, Matrix, Vector};

fn elements(values: &[u64]) -> Vec<FieldElement> {
    values.iter().map(|&x| FieldElement::from_u64(x)).collect()
}

fn vector(values: &[u64]) -> Vector {
    Vector::from_elements(&elements(values))
}

fn matrix(rows: &[&[u64]]) -> Matrix {
    let rows: Vec<Vec<FieldElement>> = rows.iter().map(|row| elements(row)).collect();
    Matrix::from_rows(&rows).unwrap()
}

fn values(v: &Vector) -> Vec<[u64; 6]> {
    (0..v.len()).map(|i| v.get(i).limbs()).collect()
}

fn small(values: &[u64]) -> Vec<[u64; 6]> {
    values.iter().map(|&x| [x, 0, 0, 0, 0, 0]).collect()
}

#[test]
fn vector_keeps_its_elements_in_order() {
    let v = vector(&[5, 0, 9, 2]);
    assert_eq!(v.len(), 4);
    assert_eq!(values(&v), small(&[5, 0, 9, 2]));
}

#[test]
fn empty_vector_has_no_elements() {
    let v = vector(&[]);
    assert_eq!(v.len(), 0);
}

#[test]
fn vector_keeps_a_large_element() {
    let minus_one = [
        0xb9fe_ffff_ffff_aaaa,
        0x1eab_fffe_b153_ffff,
        0x6730_d2a0_f6b0_f624,
        0x6477_4b84_f385_12bf,
        0x4b1b_a7b6_434b_acd7,
        0x1a01_11ea_397f_e69a,
    ];
    let e = FieldElement::from_limbs(minus_one).unwrap();
    let v = Vector::from_elements(&vec![FieldElement::from_u64(3), e]);
    assert_eq!(v.get(0).limbs(), [3, 0, 0, 0, 0, 0]);
    assert_eq!(v.get(1).limbs(), minus_one);
}

#[test]
fn equal_vectors_are_equal() {
    assert!(vector(&[1, 2, 3]).equals(&vector(&[1, 2, 3])));
    assert!(vector(&[]).equals(&vector(&[])));
}

#[test]
fn vectors_that_differ_are_not_equal() {
    assert!(!vector(&[1, 2, 3]).equals(&vector(&[1, 2, 4])));
    assert!(!vector(&[1, 2, 3]).equals(&vector(&[1, 2])));
    assert!(!vector(&[0]).equals(&vector(&[])));
}

#[test]
fn matrix_reports_rows_then_columns() {
    assert_eq!(matrix(&[&[1, 2, 3], &[4, 5, 6]]).dim(), (2, 3));
    assert_eq!(matrix(&[&[1], &[2], &[3]]).dim(), (3, 1));
}

#[test]
fn matrix_without_rows_is_zero_by_zero() {
    let m = Matrix::from_rows(&Vec::new()).unwrap();
    assert_eq!(m.dim(), (0, 0));
}

#[test]
fn matrix_of_empty_rows_has_no_columns() {
    let m = Matrix::from_rows(&vec![Vec::new(), Vec::new()]).unwrap();
    assert_eq!(m.dim(), (2, 0));
}

#[test]
fn ragged_rows_make_no_matrix() {
    let rows = vec![elements(&[1, 2]), elements(&[3])];
    assert!(Matrix::from_rows(&rows).is_none());
    let rows = vec![elements(&[1]), elements(&[2, 3])];
    assert!(Matrix::from_rows(&rows).is_none());
    let rows = vec![elements(&[]), elements(&[1])];
    assert!(Matrix::from_rows(&rows).is_none());
}

#[test]
fn product_with_a_unit_vector_reads_a_column() {
    let m = matrix(&[&[1, 2, 3], &[4, 5, 6]]);
    assert_eq!(values(&m.dot(&vector(&[1, 0, 0]))), small(&[1, 4]));
    assert_eq!(values(&m.dot(&vector(&[0, 1, 0]))), small(&[2, 5]));
    assert_eq!(values(&m.dot(&vector(&[0, 0, 1]))), small(&[3, 6]));
}

#[test]
fn product_sums_the_products_along_a_row() {
    let m = matrix(&[&[1, 2], &[3, 4]]);
    assert_eq!(values(&m.dot(&vector(&[5, 6]))), small(&[17, 39]));
}

#[test]
fn product_is_reduced_modulo_the_field_order() {
    // p - 1 is -1 in the field: (-1) * 2 + 1 * 3 = 1, and (-1) * (-1) = 1
    let minus_one = FieldElement::from_limbs([
        0xb9fe_ffff_ffff_aaaa,
        0x1eab_fffe_b153_ffff,
        0x6730_d2a0_f6b0_f624,
        0x6477_4b84_f385_12bf,
        0x4b1b_a7b6_434b_acd7,
        0x1a01_11ea_397f_e69a,
    ])
    .unwrap();
    let rows = vec![
        vec![minus_one, FieldElement::one()],
        vec![minus_one, FieldElement::zero()],
    ];
    let m = Matrix::from_rows(&rows).unwrap();
    let v = vector(&[2, 3]);
    assert_eq!(values(&m.dot(&v)), vec![[1, 0, 0, 0, 0, 0], {
        // -2 = p - 2
        let mut limbs = minus_one.limbs();
        limbs[0] -= 1;
        limbs
    }]);
    let w = Vector::from_elements(&vec![minus_one, FieldElement::zero()]);
    assert_eq!(values(&m.dot(&w)), small(&[1, 1]));
}

#[test]
fn product_of_a_matrix_without_columns_is_zero() {
    let m = Matrix::from_rows(&vec![Vec::new(), Vec::new()]).unwrap();
    assert_eq!(values(&m.dot(&vector(&[]))), small(&[0, 0]));
}

#[test]
fn matrices_of_one_shape_have_matching_dimensions() {
    let a = matrix(&[&[1, 2], &[3, 4]]);
    let b = matrix(&[&[0, 0], &[0, 0]]);
    let c = matrix(&[&[9, 9], &[9, 9]]);
    assert!(check_matrix_dimensions(&a, &b, &c));
    let a = matrix(&[&[1, 2, 3]]);
    let b = matrix(&[&[4, 5, 6]]);
    let c = matrix(&[&[7, 8, 9]]);
    assert!(check_matrix_dimensions(&a, &b, &c));
}

#[test]
fn matrices_of_different_shapes_do_not_match() {
    let two = matrix(&[&[1, 2], &[3, 4]]);
    let two_again = matrix(&[&[5, 6], &[7, 8]]);
    let three = matrix(&[&[1, 2, 3], &[4, 5, 6], &[7, 8, 9]]);
    let wide = matrix(&[&[1, 2, 3], &[4, 5, 6]]);
    let tall = matrix(&[&[1, 2], &[3, 4], &[5, 6]]);
    assert!(!check_matrix_dimensions(&three, &two, &two_again));
    assert!(!check_matrix_dimensions(&two, &three, &two_again));
    assert!(!check_matrix_dimensions(&two, &two_again, &three));
    assert!(!check_matrix_dimensions(&two, &two_again, &wide));
    assert!(!check_matrix_dimensions(&two, &two_again, &tall));
    assert!(!check_matrix_dimensions(&wide, &tall, &wide));
}
