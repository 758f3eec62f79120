//! The compute backends: what they accept, and what their replies mean.
use tallydb::compute::blas::{as_blas_dim, BlasError, BlasOp, NativeBlas};
use tallydb::compute::lapack::{
    as_lapack_dim, square_side, ColMajor, ComputeError, LapackBackend, LeastSquaresStage,
    NativeLapack, Op, RoutineReply,
};
use tallydb::compute::linalg::{LinalgError, LinalgOp, RustLinalg};
use tallydb::float64::Float64;

fn floats(values: &[f64]) -> Vec<Float64> {
    values.iter().map(|v| Float64::from_bits(v.to_bits())).collect()
}

#[test]
fn capability_negotiation_is_honest() {
    let backend = NativeBlas;
    assert!(backend.supports(BlasOp::Dot));
    assert!(backend.supports(BlasOp::MatVec));
    assert!(backend.supports(BlasOp::MatMat));
    let backend = RustLinalg;
    assert!(backend.supports(LinalgOp::Dot));
    assert!(backend.supports(LinalgOp::MatVec));
    assert!(backend.supports(LinalgOp::MatMat));
}

#[test]
fn backend_capability_negotiation_is_honest() {
    // A backend that does not implement an operation says so.
    struct Partial;
    impl LapackBackend for Partial {
        fn supports(&self, op: Op) -> bool {
            op == Op::LeastSquares
        }
        fn least_squares(
            &self,
            _: ColMajor<'_>,
            _: &[Float64],
        ) -> Result<Vec<Float64>, ComputeError> {
            panic!("not under test")
        }
    }
    let identity = floats(&[1.0, 0.0, 0.0, 1.0]);
    assert!(matches!(
        Partial.symmetric_eigen(ColMajor::new(&identity, 2, 2)),
        Err(ComputeError::Unsupported(Op::SymmetricEigen))
    ));
    assert!(!Partial.supports(Op::Cholesky));
    assert!(matches!(
        Partial.linear_solve(ColMajor::new(&identity, 2, 2), &identity),
        Err(ComputeError::Unsupported(Op::LinearSolve))
    ));
    assert!(matches!(
        Partial.cholesky(ColMajor::new(&identity, 2, 2)),
        Err(ComputeError::Unsupported(Op::Cholesky))
    ));
}

#[test]
fn every_m2_op_reports_supported() {
    let backend = NativeLapack;
    for op in [
        Op::LeastSquares,
        Op::SymmetricEigen,
        Op::LinearSolve,
        Op::Cholesky,
    ] {
        assert!(backend.supports(op), "{op:?}");
    }
}

#[test]
fn rejects_bad_shapes() {
    let backend = NativeLapack;
    let values = floats(&[1.0, 2.0]);
    let one = floats(&[1.0]);
    // Underdetermined: fewer rows than columns.
    let err = backend
        .least_squares_dims(&ColMajor::new(&values, 1, 2), &one)
        .expect_err("m < n");
    assert!(matches!(err, ComputeError::InvalidInput(_)));
    // The right-hand side's length disagrees with the rows.
    let err = backend
        .least_squares_dims(&ColMajor::new(&values, 2, 1), &one)
        .expect_err("b mismatch");
    assert!(matches!(err, ComputeError::InvalidInput(_)));
    assert_eq!(
        backend.least_squares_dims(&ColMajor::new(&values, 2, 1), &values),
        Ok((2, 1))
    );
}

#[test]
fn product_shapes_are_checked() {
    assert_eq!(NativeBlas.dot_dims(3, 3), Ok(3));
    match NativeBlas.dot_dims(1, 2) {
        Err(error) => {
            assert_eq!(error.to_text(), "invalid input: dot needs equal lengths, got 1 and 2");
        }
        Ok(_) => panic!("lengths differ"),
    }
    assert_eq!(NativeBlas.matvec_dims(4, 2, 2, 2), Ok((2, 2)));
    assert!(NativeBlas.matvec_dims(4, 2, 2, 3).is_err());
    assert!(NativeBlas.matvec_dims(0, 0, 2, 2).is_err());
    assert_eq!(NativeBlas.matmat_dims(12, 3, 4, 8, 2), Ok((3, 4, 2)));
    assert!(NativeBlas.matmat_dims(12, 3, 4, 7, 2).is_err());
    // A product that does not fit the machine is no valid shape.
    assert!(NativeBlas.matvec_dims(4, usize::MAX, 2, 2).is_err());
    assert_eq!(RustLinalg.check_dot(3, 3), Ok(()));
    assert!(matches!(RustLinalg.check_dot(1, 2), Err(LinalgError::InvalidInput(_))));
    assert_eq!(RustLinalg.check_matvec(4, 2, 2, 2), Ok(()));
    assert!(RustLinalg.check_matvec(3, 2, 2, 2).is_err());
    assert_eq!(RustLinalg.check_matmat(35, 5, 7, 28, 4), Ok(()));
    assert!(RustLinalg.check_matmat(35, 5, 7, 28, 5).is_err());
}

#[test]
fn dimensions_fit_the_routines_integers() {
    assert_eq!(as_blas_dim(i32::MAX as usize), Ok(i32::MAX));
    assert_eq!(
        as_blas_dim(1 << 31),
        Err(BlasError::InvalidInput(
            "dimension 2147483648 exceeds BLAS's i32".to_owned()
        ))
    );
    assert_eq!(as_lapack_dim(7), Ok(7));
    assert_eq!(
        as_lapack_dim(1 << 31),
        Err(ComputeError::InvalidInput(
            "dimension 2147483648 exceeds LAPACK's i32".to_owned()
        ))
    );
}

#[test]
fn errors_read_as_text() {
    assert_eq!(
        BlasError::Unsupported(BlasOp::MatVec).to_text(),
        "operation MatVec is unavailable on this backend"
    );
    assert_eq!(
        LinalgError::Unsupported(LinalgOp::Dot).to_text(),
        "operation Dot is unavailable on this backend"
    );
    assert_eq!(
        ComputeError::Lapack {
            routine: "dgesv",
            info: -3
        }
        .to_text(),
        "LAPACK dgesv failed with info = -3"
    );
}

#[test]
fn square_systems_are_checked() {
    let four = floats(&[1.0, 2.0, 3.0, 4.0]);
    let two = floats(&[5.0, 6.0]);
    assert_eq!(square_side(&ColMajor::new(&four, 2, 2), "cholesky"), Ok((2, 2)));
    match square_side(&ColMajor::new(&four, 4, 1), "cholesky") {
        Err(error) => assert_eq!(
            error.to_text(),
            "invalid input: cholesky needs a square non-empty matrix, got 4 x 1"
        ),
        Ok(_) => panic!("not square"),
    }
    assert_eq!(
        NativeLapack.linear_solve_dims(&ColMajor::new(&four, 2, 2), &two),
        Ok((2, 2))
    );
    assert!(NativeLapack.linear_solve_dims(&ColMajor::new(&four, 2, 2), &four).is_err());
    assert!(ColMajor::fits(6, 3, 2));
    assert!(!ColMajor::fits(5, 3, 2));
    let view = ColMajor::new(&four, 2, 2);
    assert_eq!((view.num_rows(), view.num_cols()), (2, 2));
    assert_eq!(view.values(), four.as_slice());
}

#[test]
fn replies_are_read_as_the_routines_mean_them() {
    assert_eq!(NativeLapack.check_info("dsyev", 0), Ok(()));
    assert_eq!(
        NativeLapack.check_info("dpotrf", 2),
        Err(ComputeError::Lapack {
            routine: "dpotrf",
            info: 2
        })
    );
    assert_eq!(NativeLapack.workspace(0), 1);
    assert_eq!(NativeLapack.workspace(-5), 1);
    assert_eq!(NativeLapack.workspace(66), 66);
    // A finite answer is kept; anything else goes on to the other routine.
    let work = floats(&[1.0, 2.0, 9.0]);
    assert_eq!(
        NativeLapack.keep_factorization(0, work.clone(), 2),
        Some(floats(&[1.0, 2.0]))
    );
    assert_eq!(NativeLapack.keep_factorization(1, work.clone(), 2), None);
    let garbage = floats(&[1.0, f64::INFINITY, 9.0]);
    assert_eq!(NativeLapack.keep_factorization(0, garbage.clone(), 2), None);
    assert!(NativeLapack.keep_factorization(0, garbage, 1).is_some());
    assert_eq!(
        NativeLapack.singular_value_answer(0, work.clone(), 2),
        Ok(floats(&[1.0, 2.0]))
    );
    assert_eq!(
        NativeLapack.singular_value_answer(4, work, 2),
        Err(ComputeError::Lapack {
            routine: "dgelsd",
            info: 4
        })
    );
    // A wide system's right-hand side is padded with zeros.
    let wide = floats(&[1.0, 2.0, 3.0]);
    let rhs = floats(&[7.0]);
    assert_eq!(
        NativeLapack.singular_value_rhs(&ColMajor::new(&wide, 1, 3), &rhs),
        Ok((3, floats(&[7.0, 0.0, 0.0])))
    );
}

#[test]
fn scratch_is_a_copy() {
    let a = floats(&[1.0, 1.0, 1.0, 0.0, 1.0, 2.0]);
    let mut copy = NativeLapack.scratch(&a);
    assert_eq!(copy, a);
    copy[0] = Float64::from_bits(9.0f64.to_bits());
    assert_eq!(a, floats(&[1.0, 1.0, 1.0, 0.0, 1.0, 2.0]));
}

#[test]
fn the_upper_triangle_of_a_factor_is_zero() {
    let left_behind = floats(&[1.0, 2.0, 3.0, 9.0, 4.0, 5.0, 9.0, 9.0, 6.0]);
    assert_eq!(
        NativeLapack.cholesky_factor(left_behind, 3),
        floats(&[1.0, 2.0, 3.0, 0.0, 4.0, 5.0, 0.0, 0.0, 6.0])
    );
}

/// What a routine leaves behind.
fn reply(info: i32, workspace: i32, indices: i32, rhs: &[f64]) -> RoutineReply {
    RoutineReply {
        info,
        workspace,
        indices,
        rhs: floats(rhs),
    }
}

#[test]
fn a_finite_factorization_settles_the_problem() {
    let start = LeastSquaresStage::SizeFactorization;
    let sized = NativeLapack.least_squares_stage(start, reply(0, 64, 0, &[]), 2);
    assert!(matches!(sized, LeastSquaresStage::Factorization { workspace: 64 }));
    match NativeLapack.least_squares_stage(sized, reply(0, 0, 0, &[1.0, 2.0, 0.0]), 2) {
        LeastSquaresStage::Solved(coefficients) => {
            assert_eq!(coefficients, floats(&[1.0, 2.0]));
        }
        _ => panic!("solved"),
    }
}

#[test]
fn a_refused_factorization_goes_on_to_the_singular_values() {
    for left_behind in [reply(2, 0, 0, &[1.0, 2.0]), reply(0, 0, 0, &[1.0, f64::NAN])] {
        let ran = LeastSquaresStage::Factorization { workspace: 1 };
        let next = NativeLapack.least_squares_stage(ran, left_behind, 2);
        assert!(matches!(next, LeastSquaresStage::SizeSingularValues));
        let sized = NativeLapack.least_squares_stage(next, reply(0, 30, 0, &[]), 2);
        assert!(matches!(
            sized,
            LeastSquaresStage::SingularValues {
                workspace: 30,
                indices: 1
            }
        ));
        match NativeLapack.least_squares_stage(sized, reply(0, 0, 0, &[3.0, 4.0, 9.0]), 2) {
            LeastSquaresStage::Solved(coefficients) => {
                assert_eq!(coefficients, floats(&[3.0, 4.0]));
            }
            _ => panic!("solved"),
        }
    }
    let query = LeastSquaresStage::SizeFactorization;
    assert!(matches!(
        NativeLapack.least_squares_stage(query, reply(-4, 0, 0, &[]), 1),
        LeastSquaresStage::Failed(ComputeError::Lapack {
            routine: "dgels",
            info: -4
        })
    ));
    let query = LeastSquaresStage::SizeSingularValues;
    assert!(matches!(
        NativeLapack.least_squares_stage(query, reply(3, 0, 0, &[]), 1),
        LeastSquaresStage::Failed(ComputeError::Lapack {
            routine: "dgelsd",
            info: 3
        })
    ));
}
