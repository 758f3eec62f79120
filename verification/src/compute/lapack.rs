//! The LAPACK backend seam: a curated list of solves and decompositions on
//! column-major matrices.
//!
//! Routines work in place, so they are handed copies and callers' buffers
//! survive. Least squares runs two routines behind one operation: the
//! orthogonal factorization, and the singular-value one where the first
//! failed or gave a coefficient that is not finite.
use super::blas::is_product;
use super::linalg::lemma_column_major;
use crate::float64::{all_finite, are_finite, Float64};
use crate::text::{decimal, push_signed_decimal, push_size, signed_decimal};
use vstd::prelude::*;

verus! {

/// The curated operations.
#[derive(Clone, Copy, PartialEq, Eq, Debug, Structural)]
pub enum Op {
    /// Least-squares solve: rolling regression.
    LeastSquares,
    /// Symmetric eigendecomposition: covariance.
    SymmetricEigen,
    /// General linear solve: portfolio weights, factor models.
    LinearSolve,
    /// Cholesky: positive-definite covariance.
    Cholesky,
}

impl Op {
    /// The operation's name.
    pub open spec fn name_text(self) -> Seq<char> {
        match self {
            Op::LeastSquares => "LeastSquares"@,
            Op::SymmetricEigen => "SymmetricEigen"@,
            Op::LinearSolve => "LinearSolve"@,
            Op::Cholesky => "Cholesky"@,
        }
    }

    /// The operation's name.
    pub fn name(self) -> (name: &'static str)
        ensures
            name@ == self.name_text(),
    {
        match self {
            Op::LeastSquares => "LeastSquares",
            Op::SymmetricEigen => "SymmetricEigen",
            Op::LinearSolve => "LinearSolve",
            Op::Cholesky => "Cholesky",
        }
    }
}

/// Why a compute call failed.
#[derive(Clone, PartialEq, Eq, Debug)]
pub enum ComputeError {
    /// The backend cannot run this operation.
    Unsupported(Op),
    /// The inputs do not describe a valid problem.
    InvalidInput(String),
    /// A routine reported failure.
    Lapack {
        /// The routine's name.
        routine: &'static str,
        /// The code it reported.
        info: i32,
    },
}

impl ComputeError {
    /// The error as text for a reader.
    pub fn to_text(&self) -> (text: String)
        ensures
            text@ == match self {
                ComputeError::Unsupported(op) => "operation "@ + op.name_text()
                    + " is unavailable on this backend"@,
                ComputeError::InvalidInput(message) => "invalid input: "@ + message@,
                ComputeError::Lapack { routine, info } => "LAPACK "@ + routine@
                    + " failed with info = "@ + signed_decimal(*info as int),
            },
    {
        match self {
            ComputeError::Unsupported(op) => {
                let mut text = String::from_str("operation ");
                text.append(op.name());
                text.append(" is unavailable on this backend");
                text
            },
            ComputeError::InvalidInput(message) => {
                let mut text = String::from_str("invalid input: ");
                text.append(message.as_str());
                text
            },
            ComputeError::Lapack { routine, info } => {
                let mut text = String::from_str("LAPACK ");
                text.append(*routine);
                text.append(" failed with info = ");
                push_signed_decimal(&mut text, *info as i64);
                text
            },
        }
    }
}

/// What a result's error says, where it is one of invalid input.
pub open spec fn invalid_text<T>(result: Result<T, ComputeError>) -> Option<Seq<char>> {
    match result {
        Err(ComputeError::InvalidInput(message)) => Some(message@),
        _ => None,
    }
}

/// A column-major matrix view: `m` rows, `n` columns, values in one
/// contiguous slice, column after column.
#[derive(Clone, Copy, Debug)]
pub struct ColMajor<'a> {
    values: &'a [Float64],
    m: usize,
    n: usize,
}

impl<'a> ColMajor<'a> {
    /// The values, column after column.
    pub closed spec fn data(&self) -> Seq<Float64> {
        self.values@
    }

    /// The rows.
    pub closed spec fn rows(&self) -> nat {
        self.m as nat
    }

    /// The columns.
    pub closed spec fn cols(&self) -> nat {
        self.n as nat
    }

    /// One value per position.
    pub open spec fn full(&self) -> bool {
        self.data().len() == self.rows() * self.cols()
    }

    /// Whether a slice of `len` values is an `m` by `n` matrix.
    pub fn fits(len: usize, m: usize, n: usize) -> (fits: bool)
        ensures
            fits == (len == m * n),
    {
        is_product(len, m, n)
    }

    /// Wraps a column-major slice.
    pub fn new(values: &'a [Float64], m: usize, n: usize) -> (matrix: Self)
        requires
            values@.len() == m * n,
        ensures
            matrix.data() == values@,
            matrix.rows() == m,
            matrix.cols() == n,
            matrix.full(),
    {
        ColMajor { values, m, n }
    }

    /// Row count.
    pub fn num_rows(&self) -> (rows: usize)
        ensures
            rows == self.rows(),
    {
        self.m
    }

    /// Column count.
    pub fn num_cols(&self) -> (cols: usize)
        ensures
            cols == self.cols(),
    {
        self.n
    }

    /// The backing slice.
    pub fn values(&self) -> (values: &'a [Float64])
        ensures
            values@ == self.data(),
    {
        self.values
    }
}

/// The backend seam: which operations there are, and the operations. All but
/// the first answer "unavailable" unless a backend says otherwise.
pub trait LapackBackend {
    /// Whether this backend can run `op`.
    fn supports(&self, op: Op) -> bool;

    /// The coefficients of the least-squares solution of an overdetermined
    /// system.
    fn least_squares(&self, a: ColMajor<'_>, b: &[Float64]) -> Result<Vec<Float64>, ComputeError>;

    /// Eigenvalues (ascending) and column-major eigenvectors of a symmetric
    /// matrix.
    fn symmetric_eigen(&self, a: ColMajor<'_>) -> (solved: Result<
        (Vec<Float64>, Vec<Float64>),
        ComputeError,
    >)
        default_ensures
            solved == Err::<(Vec<Float64>, Vec<Float64>), ComputeError>(
                ComputeError::Unsupported(Op::SymmetricEigen),
            ),
    {
        Err(ComputeError::Unsupported(Op::SymmetricEigen))
    }

    /// The solution of a square system.
    fn linear_solve(&self, a: ColMajor<'_>, b: &[Float64]) -> (solved: Result<
        Vec<Float64>,
        ComputeError,
    >)
        default_ensures
            solved == Err::<Vec<Float64>, ComputeError>(ComputeError::Unsupported(Op::LinearSolve)),
    {
        Err(ComputeError::Unsupported(Op::LinearSolve))
    }

    /// The lower Cholesky factor (column-major, upper triangle zeroed) of a
    /// symmetric positive-definite matrix.
    fn cholesky(&self, a: ColMajor<'_>) -> (solved: Result<Vec<Float64>, ComputeError>)
        default_ensures
            solved == Err::<Vec<Float64>, ComputeError>(ComputeError::Unsupported(Op::Cholesky)),
    {
        Err(ComputeError::Unsupported(Op::Cholesky))
    }
}

/// Why a number is no LAPACK dimension, if so.
pub open spec fn dimension_failure(value: nat) -> Option<Seq<char>> {
    if value > i32::MAX {
        Some("dimension "@ + decimal(value) + " exceeds LAPACK's i32"@)
    } else {
        None
    }
}

/// A dimension as LAPACK takes it, rejecting what does not fit.
pub fn as_lapack_dim(value: usize) -> (dimension: Result<i32, ComputeError>)
    ensures
        match dimension {
            Ok(d) => d == value && dimension_failure(value as nat) is None,
            Err(_) => dimension_failure(value as nat) is Some,
        },
        invalid_text(dimension) == dimension_failure(value as nat),
{
    if value > 0x7FFF_FFFF {
        let mut text = String::from_str("dimension ");
        push_size(&mut text, value);
        text.append(" exceeds LAPACK's i32");
        Err(ComputeError::InvalidInput(text))
    } else {
        Ok(value as i32)
    }
}

/// Why a matrix cannot be factored as a square one, if so.
pub open spec fn square_failure(rows: nat, cols: nat, what: Seq<char>) -> Option<Seq<char>> {
    if rows == 0 || cols != rows {
        Some(
            what + " needs a square non-empty matrix, got "@ + decimal(rows) + " x "@ + decimal(
                cols,
            ),
        )
    } else {
        dimension_failure(rows)
    }
}

/// The side of a square matrix, as a size and as a LAPACK dimension.
pub fn square_side(a: &ColMajor<'_>, what: &str) -> (side: Result<(usize, i32), ComputeError>)
    ensures
        match side {
            Ok((n, n_i)) => n == a.rows() && n_i == n && square_failure(a.rows(), a.cols(), what@)
                is None,
            Err(_) => square_failure(a.rows(), a.cols(), what@) is Some,
        },
        invalid_text(side) == square_failure(a.rows(), a.cols(), what@),
{
    let n: usize = a.num_rows();
    if n == 0 || a.num_cols() != n {
        let mut text = what.to_owned();
        text.append(" needs a square non-empty matrix, got ");
        push_size(&mut text, a.num_rows());
        text.append(" x ");
        push_size(&mut text, a.num_cols());
        return Err(ComputeError::InvalidInput(text));
    }
    match as_lapack_dim(n) {
        Ok(n_i) => Ok((n, n_i)),
        Err(error) => Err(error),
    }
}

/// Why a right-hand side does not go with a matrix, if so.
pub open spec fn rhs_failure(b: nat, rows: nat) -> Option<Seq<char>> {
    if b != rows {
        Some("b has "@ + decimal(b) + " rows, A has "@ + decimal(rows))
    } else {
        None
    }
}

/// Says that a right-hand side does not go with a matrix.
fn rhs_message(b: usize, rows: usize) -> (text: String)
    ensures
        text@ == "b has "@ + decimal(b as nat) + " rows, A has "@ + decimal(rows as nat),
{
    let mut text = String::from_str("b has ");
    push_size(&mut text, b);
    text.append(" rows, A has ");
    push_size(&mut text, rows);
    text
}

/// Why a linear system cannot be solved, if so, by its shapes.
pub open spec fn solve_failure(rows: nat, cols: nat, b: nat) -> Option<Seq<char>> {
    if square_failure(rows, cols, "linear solve"@) is Some {
        square_failure(rows, cols, "linear solve"@)
    } else {
        rhs_failure(b, rows)
    }
}

/// Why a least-squares problem cannot be solved, if so, by its shapes.
pub open spec fn least_squares_failure(rows: nat, cols: nat, b: nat) -> Option<Seq<char>> {
    if cols == 0 || rows < cols {
        Some(
            "least squares needs m >= n >= 1, got m = "@ + decimal(rows) + ", n = "@ + decimal(
                cols,
            ),
        )
    } else if rhs_failure(b, rows) is Some {
        rhs_failure(b, rows)
    } else if dimension_failure(rows) is Some {
        dimension_failure(rows)
    } else {
        dimension_failure(cols)
    }
}

/// A column-major square matrix with its strict upper triangle zeroed.
pub open spec fn lower_triangle(values: Seq<Float64>, n: nat) -> Seq<Float64> {
    Seq::new(
        values.len(),
        |i: int|
            if n > 0 && i % (n as int) < i / (n as int) {
                Float64 { bits: 0 }
            } else {
                values[i]
            },
    )
}

/// How far a least-squares problem has come, and what is to be run next. The
/// orthogonal factorization goes first; the singular-value routine, which is
/// defined for any rank, takes over where it fails or its answer is not
/// finite.
pub enum LeastSquaresStage {
    /// Ask the factorization for its workspace.
    SizeFactorization,
    /// Run the factorization.
    Factorization {
        /// The workspace to allocate.
        workspace: usize,
    },
    /// Ask the singular-value routine for its workspaces.
    SizeSingularValues,
    /// Run the singular-value routine.
    SingularValues {
        /// The workspace to allocate.
        workspace: usize,
        /// The integer workspace to allocate.
        indices: usize,
    },
    /// The coefficients.
    Solved(Vec<Float64>),
    /// The failure.
    Failed(ComputeError),
}

/// What a routine left behind.
pub struct RoutineReply {
    /// Its report: zero is success.
    pub info: i32,
    /// The workspace it asks for, when it was asked.
    pub workspace: i32,
    /// The integer workspace it asks for, when it was asked.
    pub indices: i32,
    /// The right-hand side, overwritten with the solution.
    pub rhs: Vec<Float64>,
}

/// The workspace to allocate for a queried size.
pub open spec fn workspace_of(queried: i32) -> int {
    if queried >= 1 {
        queried as int
    } else {
        1
    }
}

/// The number of routine calls that can still come.
pub open spec fn calls_left(stage: LeastSquaresStage) -> nat {
    match stage {
        LeastSquaresStage::SizeFactorization => 4,
        LeastSquaresStage::Factorization { .. } => 3,
        LeastSquaresStage::SizeSingularValues => 2,
        LeastSquaresStage::SingularValues { .. } => 1,
        LeastSquaresStage::Solved(_) => 0,
        LeastSquaresStage::Failed(_) => 0,
    }
}

/// The native backend: system LAPACK, linked as it is. What it accepts, what
/// its routines are handed, and what their replies mean.
#[derive(Clone, Copy, Debug, Default)]
pub struct NativeLapack;

impl NativeLapack {
    /// Whether this backend can run `op`: it runs them all.
    pub fn supports(&self, op: Op) -> (supported: bool)
        ensures
            supported,
    {
        match op {
            Op::LeastSquares => true,
            Op::SymmetricEigen => true,
            Op::LinearSolve => true,
            Op::Cholesky => true,
        }
    }

    /// The values of a slice, copied for a routine to overwrite.
    pub fn scratch(&self, values: &[Float64]) -> (copy: Vec<Float64>)
        ensures
            copy@ == values@,
    {
        vstd::slice::slice_to_vec(values)
    }

    /// What a routine's report means: zero is success.
    pub fn check_info(&self, routine: &'static str, info: i32) -> (checked: Result<
        (),
        ComputeError,
    >)
        ensures
            checked == (if info == 0 {
                Ok::<(), ComputeError>(())
            } else {
                Err(ComputeError::Lapack { routine, info })
            }),
    {
        if info != 0 {
            return Err(ComputeError::Lapack { routine, info });
        }
        Ok(())
    }

    /// The workspace to allocate for a queried size: at least one element.
    pub fn workspace(&self, queried: i32) -> (len: usize)
        ensures
            len == workspace_of(queried),
    {
        if queried >= 1 {
            queried as usize
        } else {
            1
        }
    }

    /// The side of a linear system, as a size and as a LAPACK dimension.
    pub fn linear_solve_dims(&self, a: &ColMajor<'_>, b: &[Float64]) -> (dims: Result<
        (usize, i32),
        ComputeError,
    >)
        ensures
            match dims {
                Ok((n, n_i)) => n == a.rows() && n_i == n && solve_failure(
                    a.rows(),
                    a.cols(),
                    b@.len(),
                ) is None,
                Err(_) => solve_failure(a.rows(), a.cols(), b@.len()) is Some,
            },
            invalid_text(dims) == solve_failure(a.rows(), a.cols(), b@.len()),
    {
        match square_side(a, "linear solve") {
            Ok((n, n_i)) => {
                if b.len() != n {
                    return Err(ComputeError::InvalidInput(rhs_message(b.len(), n)));
                }
                Ok((n, n_i))
            },
            Err(error) => Err(error),
        }
    }

    /// The dimensions of a least-squares problem.
    pub fn least_squares_dims(&self, a: &ColMajor<'_>, b: &[Float64]) -> (dims: Result<
        (i32, i32),
        ComputeError,
    >)
        ensures
            match dims {
                Ok((m_i, n_i)) => m_i == a.rows() && n_i == a.cols() && least_squares_failure(
                    a.rows(),
                    a.cols(),
                    b@.len(),
                ) is None,
                Err(_) => least_squares_failure(a.rows(), a.cols(), b@.len()) is Some,
            },
            invalid_text(dims) == least_squares_failure(a.rows(), a.cols(), b@.len()),
    {
        let m: usize = a.num_rows();
        let n: usize = a.num_cols();
        if n == 0 || m < n {
            let mut text = String::from_str("least squares needs m >= n >= 1, got m = ");
            push_size(&mut text, m);
            text.append(", n = ");
            push_size(&mut text, n);
            return Err(ComputeError::InvalidInput(text));
        }
        if b.len() != m {
            return Err(ComputeError::InvalidInput(rhs_message(b.len(), m)));
        }
        match as_lapack_dim(m) {
            Ok(m_i) => match as_lapack_dim(n) {
                Ok(n_i) => Ok((m_i, n_i)),
                Err(error) => Err(error),
            },
            Err(error) => Err(error),
        }
    }

    /// Whether the orthogonal factorization's answer is kept: where the
    /// routine succeeded and each of the `n` coefficients, which come first
    /// in what it left behind, is finite. `None` sends the problem on to the
    /// singular-value routine.
    pub fn keep_factorization(&self, info: i32, work: Vec<Float64>, n: usize) -> (kept: Option<
        Vec<Float64>,
    >)
        requires
            n <= work@.len(),
        ensures
            match kept {
                Some(coefficients) => info == 0 && coefficients@ == work@.take(n as int)
                    && all_finite(coefficients@),
                None => info != 0 || !all_finite(work@.take(n as int)),
            },
    {
        if info != 0 {
            return None;
        }
        let mut kept: Vec<Float64> = work;
        kept.truncate(n);
        assert(kept@ =~= work@.take(n as int));
        if !are_finite(kept.as_slice()) {
            return None;
        }
        Some(kept)
    }

    /// The singular-value routine's leading dimension and its right-hand
    /// side: the larger of the two dimensions, and `b` padded with zeros to
    /// it.
    pub fn singular_value_rhs(&self, a: &ColMajor<'_>, b: &[Float64]) -> (rhs: Result<
        (i32, Vec<Float64>),
        ComputeError,
    >)
        requires
            b@.len() == a.rows(),
        ensures
            ({
                let side = if a.rows() >= a.cols() {
                    a.rows()
                } else {
                    a.cols()
                };
                &&& match rhs {
                    Ok((ldb, padded)) => ldb == side && dimension_failure(side) is None && padded@
                        == b@ + Seq::new((side - a.rows()) as nat, |i: int| Float64 { bits: 0 }),
                    Err(_) => dimension_failure(side) is Some,
                }
                &&& invalid_text(rhs) == dimension_failure(side)
            }),
    {
        let m: usize = a.num_rows();
        let n: usize = a.num_cols();
        let ldb: usize = if m >= n {
            m
        } else {
            n
        };
        match as_lapack_dim(ldb) {
            Ok(ldb_i) => {
                let mut padded: Vec<Float64> = vstd::slice::slice_to_vec(b);
                while padded.len() < ldb
                    invariant
                        b@.len() == m,
                        m <= padded@.len() <= ldb,
                        padded@ == b@ + Seq::new(
                            (padded@.len() - m) as nat,
                            |i: int| Float64 { bits: 0 },
                        ),
                    decreases ldb - padded@.len(),
                {
                    padded.push(Float64 { bits: 0 });
                    assert(padded@ =~= b@ + Seq::new(
                        (padded@.len() - m) as nat,
                        |i: int| Float64 { bits: 0 },
                    ));
                }
                Ok((ldb_i, padded))
            },
            Err(error) => Err(error),
        }
    }

    /// What the singular-value routine left behind means: the first `n`
    /// values are the coefficients, unless it failed.
    pub fn singular_value_answer(&self, info: i32, work: Vec<Float64>, n: usize) -> (answer: Result<
        Vec<Float64>,
        ComputeError,
    >)
        requires
            n <= work@.len(),
        ensures
            match answer {
                Ok(coefficients) => info == 0 && coefficients@ == work@.take(n as int),
                Err(error) => info != 0 && error == (ComputeError::Lapack {
                    routine: "dgelsd",
                    info,
                }),
            },
    {
        match self.check_info("dgelsd", info) {
            Ok(()) => {
                let mut work = work;
                work.truncate(n);
                Ok(work)
            },
            Err(error) => Err(error),
        }
    }

    /// What comes next in a least-squares problem with `n` coefficients,
    /// given what the routine left behind. At most four calls are made.
    pub fn least_squares_stage(
        &self,
        stage: LeastSquaresStage,
        reply: RoutineReply,
        n: usize,
    ) -> (next: LeastSquaresStage)
        requires
            stage is Factorization || stage is SingularValues ==> n <= reply.rhs@.len(),
        ensures
            match stage {
                LeastSquaresStage::SizeFactorization => if reply.info != 0 {
                    next == LeastSquaresStage::Failed(
                        ComputeError::Lapack { routine: "dgels", info: reply.info },
                    )
                } else {
                    next matches LeastSquaresStage::Factorization { workspace } && workspace
                        == workspace_of(reply.workspace)
                },
                LeastSquaresStage::Factorization { .. } => if reply.info == 0 && all_finite(
                    reply.rhs@.take(n as int),
                ) {
                    next matches LeastSquaresStage::Solved(coefficients) && coefficients@
                        == reply.rhs@.take(n as int)
                } else {
                    next == LeastSquaresStage::SizeSingularValues
                },
                LeastSquaresStage::SizeSingularValues => if reply.info != 0 {
                    next == LeastSquaresStage::Failed(
                        ComputeError::Lapack { routine: "dgelsd", info: reply.info },
                    )
                } else {
                    next matches LeastSquaresStage::SingularValues { workspace, indices }
                        && workspace == workspace_of(reply.workspace) && indices == workspace_of(
                        reply.indices,
                    )
                },
                LeastSquaresStage::SingularValues { .. } => if reply.info != 0 {
                    next == LeastSquaresStage::Failed(
                        ComputeError::Lapack { routine: "dgelsd", info: reply.info },
                    )
                } else {
                    next matches LeastSquaresStage::Solved(coefficients) && coefficients@
                        == reply.rhs@.take(n as int)
                },
                _ => next == stage,
            },
            calls_left(stage) > 0 ==> calls_left(next) < calls_left(stage),
    {
        match stage {
            LeastSquaresStage::SizeFactorization => match self.check_info("dgels", reply.info) {
                Ok(()) => LeastSquaresStage::Factorization {
                    workspace: self.workspace(reply.workspace),
                },
                Err(error) => LeastSquaresStage::Failed(error),
            },
            LeastSquaresStage::Factorization { .. } => match self.keep_factorization(
                reply.info,
                reply.rhs,
                n,
            ) {
                Some(coefficients) => LeastSquaresStage::Solved(coefficients),
                None => LeastSquaresStage::SizeSingularValues,
            },
            LeastSquaresStage::SizeSingularValues => match self.check_info("dgelsd", reply.info) {
                Ok(()) => LeastSquaresStage::SingularValues {
                    workspace: self.workspace(reply.workspace),
                    indices: self.workspace(reply.indices),
                },
                Err(error) => LeastSquaresStage::Failed(error),
            },
            LeastSquaresStage::SingularValues { .. } => match self.singular_value_answer(
                reply.info,
                reply.rhs,
                n,
            ) {
                Ok(coefficients) => LeastSquaresStage::Solved(coefficients),
                Err(error) => LeastSquaresStage::Failed(error),
            },
            LeastSquaresStage::Solved(coefficients) => LeastSquaresStage::Solved(coefficients),
            LeastSquaresStage::Failed(error) => LeastSquaresStage::Failed(error),
        }
    }

    /// The lower Cholesky factor, from what the routine left behind: it does
    /// not touch the strict upper triangle, which is zeroed here.
    pub fn cholesky_factor(&self, factored: Vec<Float64>, n: usize) -> (factor: Vec<Float64>)
        requires
            factored@.len() == n * n,
        ensures
            factor@ == lower_triangle(factored@, n as nat),
    {
        let ghost given = factored@;
        let mut factor: Vec<Float64> = factored;
        let mut column: usize = 1;
        assert forall|i: int| 0 <= i < given.len() implies given[i] == partly_zeroed(
            given,
            n as nat,
            1,
            0,
        )[i] by {
            lemma_position(n as nat, i);
        }
        assert(factor@ =~= partly_zeroed(given, n as nat, 1, 0));
        while column < n
            invariant
                1 <= column,
                n == 0 || column <= n,
                given.len() == n * n,
                factor@ == partly_zeroed(given, n as nat, column as int, 0),
            decreases n - column,
        {
            let mut row: usize = 0;
            while row < column
                invariant
                    row <= column,
                    1 <= column < n,
                    given.len() == n * n,
                    factor@.len() == given.len(),
                    factor@ == partly_zeroed(given, n as nat, column as int, row as int),
                decreases column - row,
            {
                proof {
                    lemma_column_major(n as nat, n as nat, row as nat, column as nat, 0, 0);
                    assert(column * n <= column * n + row);
                }
                let len: usize = factor.len();
                assert(column * n + row < len);
                factor.set(column * n + row, Float64 { bits: 0 });
                assert forall|i: int| 0 <= i < given.len() implies factor@[i] == partly_zeroed(
                    given,
                    n as nat,
                    column as int,
                    row + 1,
                )[i] by {
                    lemma_position(n as nat, i);
                    lemma_column_major(
                        n as nat,
                        n as nat,
                        row as nat,
                        column as nat,
                        (i % (n as int)) as nat,
                        (i / (n as int)) as nat,
                    );
                }
                assert(factor@ =~= partly_zeroed(given, n as nat, column as int, row + 1));
                row += 1;
            }
            assert forall|i: int| 0 <= i < given.len() implies factor@[i] == partly_zeroed(
                given,
                n as nat,
                column + 1,
                0,
            )[i] by {
                lemma_position(n as nat, i);
            }
            assert(factor@ =~= partly_zeroed(given, n as nat, column + 1, 0));
            column += 1;
        }
        assert forall|i: int| 0 <= i < given.len() implies factor@[i] == lower_triangle(
            given,
            n as nat,
        )[i] by {
            lemma_position(n as nat, i);
        }
        assert(factor@ =~= lower_triangle(given, n as nat));
        factor
    }
}

/// A square matrix with the strict upper triangle zeroed in the columns
/// before `column`, and in that column down to `row`.
spec fn partly_zeroed(values: Seq<Float64>, n: nat, column: int, row: int) -> Seq<Float64> {
    Seq::new(
        values.len(),
        |i: int|
            {
                let (r, c) = (i % (n as int), i / (n as int));
                if r < c && (c < column || (c == column && r < row)) {
                    Float64 { bits: 0 }
                } else {
                    values[i]
                }
            },
    )
}

/// A position in a square matrix has a row and a column within it.
proof fn lemma_position(n: nat, i: int)
    requires
        0 <= i < n * n,
    ensures
        n > 0,
        0 <= i % (n as int) < n,
        0 <= i / (n as int) < n,
        i == (i / (n as int)) * n + i % (n as int),
{
    assert(n > 0) by (nonlinear_arith)
        requires
            0 <= i < n * n,
    ;
    let d = n as int;
    vstd::arithmetic::div_mod::lemma_fundamental_div_mod(i, d);
    vstd::arithmetic::div_mod::lemma_mod_bound(i, d);
    vstd::arithmetic::div_mod::lemma_div_pos_is_pos(i, d);
    assert(i / d < d) by {
        vstd::arithmetic::div_mod::lemma_multiply_divide_lt(i, d, d);
    }
    assert(d * (i / d) == (i / d) * d) by (nonlinear_arith);
}

} // verus!
