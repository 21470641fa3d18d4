use spmm::coo::COO;
use spmm::csr::CSR;
use spmm::dense::Dense;
use spmm::error::MatError;
use spmm::predict::predict;

fn make_csr(data: Vec<(usize, usize, i64)>, shape: (usize, usize)) -> CSR {
    CSR::from_coo(COO { data, shape })
}

#[test]
fn diagonal_product_and_prediction() {
    // A = [[1,0],[0,2]], B = [[3,0],[0,4]]
    let a = make_csr(vec![(0, 0, 1), (1, 1, 2)], (2, 2));
    let b = make_csr(vec![(0, 0, 3), (1, 1, 4)], (2, 2));
    let c = a.product(&b).unwrap();
    assert_eq!(c.data, vec![3, 0, 0, 8]);
    let true_nnz = c.data.iter().filter(|x| **x != 0).count();
    assert_eq!(true_nnz, 2);
    let bound = predict(&a, &b);
    assert!(bound >= true_nnz);
    assert_eq!(bound, 2);
}

#[test]
fn row_times_column() {
    // A is 1x3 [1,2,3], B is 3x1 of ones
    let a = make_csr(vec![(0, 0, 1), (0, 1, 2), (0, 2, 3)], (1, 3));
    let b = make_csr(vec![(0, 0, 1), (1, 0, 1), (2, 0, 1)], (3, 1));
    let c = a.product(&b).unwrap();
    assert_eq!(c.shape, (1, 1));
    assert_eq!(c.data, vec![6]);
    assert_eq!(predict(&a, &b), 3);
}

#[test]
fn incompatible_shapes_fail_before_any_work() {
    let a = make_csr(vec![(0, 0, 1), (1, 2, 1)], (2, 3));
    let b = make_csr(vec![(0, 0, 1), (1, 2, 1)], (2, 3));
    assert_eq!(a.product(&b).unwrap_err(), MatError::DimensionMismatch);
    assert_eq!(a.product_sparse(&b).unwrap_err(), MatError::DimensionMismatch);
    assert_eq!(a.product_sparse_par(&b).unwrap_err(), MatError::DimensionMismatch);
    assert_eq!(a.product_sparse_to_coo_par(&b).unwrap_err(), MatError::DimensionMismatch);
}

#[test]
fn zero_row_is_representable_and_yields_zero_row() {
    // row 0 of A holds no entry
    let a = make_csr(vec![(1, 0, 1), (1, 1, 1)], (2, 2));
    assert_eq!(a.row_pos[0], a.row_pos[1]);
    let b = make_csr(vec![(0, 0, 5), (0, 1, 6), (1, 0, 7), (1, 1, 8)], (2, 2));
    let c = a.product(&b).unwrap();
    assert_eq!(&c.data[0..2], &[0, 0]);
    let s = a.product_sparse(&b).unwrap();
    assert_eq!(s.row_pos[0], s.row_pos[1]);
}

#[test]
fn round_trip_from_coo_matches_dense_expansion() {
    // duplicates are summed by both expansions
    let data = vec![(0, 1, 2), (0, 1, 3), (1, 0, -4), (2, 2, 9)];
    let coo = COO { data, shape: (3, 3) };
    let direct = coo.to_dense();
    let csr = CSR::from_coo(COO { data: direct.to_coo().data.clone(), shape: (3, 3) });
    // the first expansion path: COO -> CSR -> Dense
    let coo2 = COO { data: vec![(0, 1, 2), (0, 1, 3), (1, 0, -4), (2, 2, 9)], shape: (3, 3) };
    let through_csr = CSR::from_coo(coo2).to_dense();
    assert_eq!(direct.data, through_csr.data);
    assert_eq!(direct.data, csr.to_dense().data);
    assert_eq!(direct.data, vec![0, 5, 0, -4, 0, 0, 0, 0, 9]);
}

#[test]
fn retriplet_keeps_products() {
    // CSR -> Dense -> COO -> CSR leaves every product unchanged
    let a = make_csr(vec![(0, 0, 2), (0, 1, -1), (2, 1, 5)], (3, 2));
    let b = make_csr(vec![(0, 0, 1), (0, 1, 3), (1, 1, -2)], (2, 2));
    let retripleted = CSR::from_coo(a.to_dense().to_coo());
    let c1 = a.product(&b).unwrap();
    let c2 = retripleted.product(&b).unwrap();
    assert_eq!(c1.data, c2.data);
    assert_eq!(c1.shape, c2.shape);
}

#[test]
fn predictor_bounds_true_nnz() {
    let cases = vec![
        (vec![(0, 0, 1), (0, 1, 1), (1, 0, 1)], (2, 2), vec![(0, 0, 1), (1, 0, -1)], (2, 2)),
        (vec![(0, 0, 1), (0, 1, -1)], (1, 2), vec![(0, 0, 1), (1, 0, 1)], (2, 1)),
        (vec![(0, 2, 4), (1, 1, 2)], (2, 3), vec![(1, 0, 1), (2, 0, 3), (2, 1, 3)], (3, 2)),
    ];
    for (ad, ash, bd, bsh) in cases {
        let a = make_csr(ad, ash);
        let b = make_csr(bd, bsh);
        let c = a.product(&b).unwrap();
        let true_nnz = c.data.iter().filter(|x| **x != 0).count();
        assert!(predict(&a, &b) >= true_nnz);
    }
}

#[test]
fn from_coo_handles_leading_and_trailing_zero_rows() {
    let coo = COO { data: vec![(2, 1, 7)], shape: (5, 3) };
    let csr = CSR::from_coo(coo);
    assert_eq!(csr.row_pos, vec![0, 0, 0, 1, 1, 1]);
    assert_eq!(csr.col_pos, vec![1]);
    assert_eq!(csr.values, vec![7]);
    let d = csr.to_dense();
    assert_eq!(d.data[2 * 3 + 1], 7);
    assert_eq!(d.data.iter().filter(|x| **x != 0).count(), 1);
}

#[test]
fn empty_matrix_product() {
    let a = make_csr(vec![], (2, 2));
    let b = make_csr(vec![], (2, 2));
    let c = a.product(&b).unwrap();
    assert_eq!(c.data, vec![0, 0, 0, 0]);
    assert_eq!(predict(&a, &b), 0);
    let s = a.product_sparse(&b).unwrap();
    assert_eq!(s.values.len(), 0);
}

#[test]
fn to_coo_emits_row_major_nonzeros() {
    let mut d = Dense::new_zeros((2, 3));
    d.set(0, 2, 4);
    d.set(1, 0, -5);
    let coo = d.to_coo();
    assert_eq!(coo.data, vec![(0, 2, 4), (1, 0, -5)]);
    assert_eq!(coo.shape, (2, 3));
}
