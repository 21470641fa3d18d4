use spmm::coo::COO;
use spmm::csr::CSR;
use spmm::dense::Dense;

/// Build a CSR operand from row-sorted triplets.
fn make_csr(data: Vec<(usize, usize, i64)>, shape: (usize, usize)) -> CSR {
    CSR::from_coo(COO { data, shape })
}

/// The test cases: (A triplets, A shape, B triplets, B shape, expected C
/// cells in row-major order).
fn cases() -> Vec<(Vec<(usize, usize, i64)>, (usize, usize), Vec<(usize, usize, i64)>, (usize, usize), Vec<i64>)> {
    vec![
        // diagonal times diagonal
        (
            vec![(0, 0, 1), (1, 1, 2)],
            (2, 2),
            vec![(0, 0, 3), (1, 1, 4)],
            (2, 2),
            vec![3, 0, 0, 8],
        ),
        // row vector times column vector
        (
            vec![(0, 0, 1), (0, 1, 2), (0, 2, 3)],
            (1, 3),
            vec![(0, 0, 1), (1, 0, 1), (2, 0, 1)],
            (3, 1),
            vec![6],
        ),
        // an all-zero row in A
        (
            vec![(1, 0, 1), (1, 1, 1)],
            (2, 2),
            vec![(0, 0, 5), (0, 1, 6), (1, 0, 7), (1, 1, 8)],
            (2, 2),
            vec![0, 0, 12, 14],
        ),
        // duplicate coordinates in A are summed before multiplying
        (
            vec![(0, 0, 1), (0, 0, 2)],
            (1, 1),
            vec![(0, 0, 2)],
            (1, 1),
            vec![6],
        ),
        // cancellation: the product is exactly zero
        (
            vec![(0, 0, 1), (0, 1, -1)],
            (1, 2),
            vec![(0, 0, 1), (1, 0, 1)],
            (2, 1),
            vec![0],
        ),
        // a full 3x3 against a sparse 3x3
        (
            vec![
                (0, 0, 1),
                (0, 1, 2),
                (0, 2, 3),
                (1, 0, 4),
                (1, 1, 5),
                (1, 2, 6),
                (2, 0, 7),
                (2, 1, 8),
                (2, 2, 9),
            ],
            (3, 3),
            vec![(0, 2, 1), (2, 0, -2)],
            (3, 3),
            vec![-6, 0, 1, -12, 0, 4, -18, 0, 7],
        ),
        // rectangular: 2x3 times 3x2
        (
            vec![(0, 0, 1), (0, 2, 2), (1, 1, 3)],
            (2, 3),
            vec![(0, 1, 4), (1, 0, 5), (2, 0, 6), (2, 1, 7)],
            (3, 2),
            vec![12, 18, 15, 0],
        ),
    ]
}

fn cmp_dense(c: &Dense, expected: &[i64]) -> bool {
    c.data.len() == expected.len() && c.data.iter().zip(expected.iter()).all(|(x, y)| x == y)
}

#[test]
fn test_product_csr() {
    for (k, (ad, ash, bd, bsh, want)) in cases().into_iter().enumerate() {
        println!("Testing k={}", k);
        let a = make_csr(ad, ash);
        let b = make_csr(bd, bsh);
        let c_test = a.product(&b).expect("compatible shapes");
        println!("{:?}", c_test.data);
        assert!(cmp_dense(&c_test, &want));
    }
}

#[test]
fn test_product_csr_sparse() {
    for (k, (ad, ash, bd, bsh, want)) in cases().into_iter().enumerate() {
        println!("Testing k={}", k);
        let a = make_csr(ad, ash);
        let b = make_csr(bd, bsh);
        let c_test = a.product_sparse(&b).expect("compatible shapes").to_dense();
        assert!(cmp_dense(&c_test, &want));
    }
}

#[test]
fn test_product_csr_sparse_par() {
    for (k, (ad, ash, bd, bsh, want)) in cases().into_iter().enumerate() {
        println!("Testing k={}", k);
        let a = make_csr(ad, ash);
        let b = make_csr(bd, bsh);
        let c_test = a.product_sparse_par(&b).expect("compatible shapes").to_dense();
        assert!(cmp_dense(&c_test, &want));
    }
}

#[test]
fn test_product_csr_sparse_to_coo_par() {
    for (k, (ad, ash, bd, bsh, want)) in cases().into_iter().enumerate() {
        println!("Testing k={}", k);
        let a = make_csr(ad, ash);
        let b = make_csr(bd, bsh);
        let c_test = a.product_sparse_to_coo_par(&b).expect("compatible shapes").to_dense();
        assert!(cmp_dense(&c_test, &want));
    }
}

#[test]
fn test_all_variants_agree() {
    for (ad, ash, bd, bsh, _) in cases() {
        let a = make_csr(ad, ash);
        let b = make_csr(bd, bsh);
        let dense = a.product(&b).unwrap();
        let s = a.product_sparse(&b).unwrap().to_dense();
        let sp = a.product_sparse_par(&b).unwrap().to_dense();
        let sc = a.product_sparse_to_coo_par(&b).unwrap().to_dense();
        assert_eq!(dense.data, s.data);
        assert_eq!(dense.data, sp.data);
        assert_eq!(dense.data, sc.data);
    }
}

#[test]
fn test_sparse_product_stores_no_zeros() {
    // cancellation leaves no stored entry in the sparse result
    let a = make_csr(vec![(0, 0, 1), (0, 1, -1)], (1, 2));
    let b = make_csr(vec![(0, 0, 1), (1, 0, 1)], (2, 1));
    let c = a.product_sparse(&b).unwrap();
    assert_eq!(c.values.len(), 0);
    assert_eq!(c.row_pos, vec![0, 0]);
}
