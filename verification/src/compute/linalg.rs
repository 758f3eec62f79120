//! The linear-algebra backend seam: multiplication-class operations, with no
//! system library behind them.
use super::blas::{
    dot_message, is_product, matmat_message, matmat_shape_failure, matvec_message,
    matvec_shape_failure,
};
use crate::float64::Float64;
use crate::text::decimal;
use vstd::prelude::*;

verus! {

/// The multiplication-class operations.
#[derive(Clone, Copy, PartialEq, Eq, Debug, Structural)]
pub enum LinalgOp {
    /// Dot product.
    Dot,
    /// Matrix-vector multiply.
    MatVec,
    /// Matrix-matrix multiply.
    MatMat,
}

impl LinalgOp {
    /// The operation's name.
    pub open spec fn name_text(self) -> Seq<char> {
        match self {
            LinalgOp::Dot => "Dot"@,
            LinalgOp::MatVec => "MatVec"@,
            LinalgOp::MatMat => "MatMat"@,
        }
    }

    /// The operation's name.
    pub fn name(self) -> (name: &'static str)
        ensures
            name@ == self.name_text(),
    {
        match self {
            LinalgOp::Dot => "Dot",
            LinalgOp::MatVec => "MatVec",
            LinalgOp::MatMat => "MatMat",
        }
    }
}

/// Why a linear-algebra call failed.
#[derive(Clone, PartialEq, Eq, Debug)]
pub enum LinalgError {
    /// The backend cannot run this operation.
    Unsupported(LinalgOp),
    /// The inputs do not describe a valid problem.
    InvalidInput(String),
}

impl LinalgError {
    /// The error as text for a reader.
    pub fn to_text(&self) -> (text: String)
        ensures
            text@ == match self {
                LinalgError::Unsupported(op) => "operation "@ + op.name_text()
                    + " is unavailable on this backend"@,
                LinalgError::InvalidInput(message) => "invalid input: "@ + message@,
            },
    {
        match self {
            LinalgError::Unsupported(op) => {
                let mut text = String::from_str("operation ");
                text.append(op.name());
                text.append(" is unavailable on this backend");
                text
            },
            LinalgError::InvalidInput(message) => {
                let mut text = String::from_str("invalid input: ");
                text.append(message.as_str());
                text
            },
        }
    }
}

/// The backend seam.
pub trait LinalgBackend {
    /// Whether this backend can run `op`.
    fn supports(&self, op: LinalgOp) -> bool;

    /// The dot product of equal-length slices.
    fn dot(&self, x: &[Float64], y: &[Float64]) -> Result<Float64, LinalgError>;

    /// The product of a column-major `m` by `n` matrix and a vector of length
    /// `n`: `m` values.
    fn matvec(&self, a: &[Float64], m: usize, n: usize, x: &[Float64]) -> Result<
        Vec<Float64>,
        LinalgError,
    >;

    /// The product of column-major matrices, `m` by `k` and `k` by `n`: the
    /// column-major `m` by `n` product.
    fn matmat(&self, a: &[Float64], m: usize, k: usize, b: &[Float64], n: usize) -> Result<
        Vec<Float64>,
        LinalgError,
    >;
}

/// What a result's error says, where it is one of invalid input.
pub open spec fn invalid_text<T>(result: Result<T, LinalgError>) -> Option<Seq<char>> {
    match result {
        Err(LinalgError::InvalidInput(message)) => Some(message@),
        _ => None,
    }
}

/// The pure-Rust backend: a strict left-to-right loop for the dot product,
/// blocked kernels for the matrix operations. What it accepts.
#[derive(Clone, Copy, Debug, Default)]
pub struct RustLinalg;

impl RustLinalg {
    /// Whether this backend can run `op`: it runs them all.
    pub fn supports(&self, op: LinalgOp) -> (supported: bool)
        ensures
            supported,
    {
        match op {
            LinalgOp::Dot => true,
            LinalgOp::MatVec => true,
            LinalgOp::MatMat => true,
        }
    }

    /// Checks the lengths of a dot product's slices.
    pub fn check_dot(&self, x: usize, y: usize) -> (checked: Result<(), LinalgError>)
        ensures
            checked is Ok <==> x == y,
            invalid_text(checked) == (if x == y {
                None
            } else {
                Some(
                    "dot needs equal lengths, got "@ + decimal(x as nat) + " and "@ + decimal(
                        y as nat,
                    ),
                )
            }),
    {
        if x != y {
            return Err(LinalgError::InvalidInput(dot_message(x, y)));
        }
        Ok(())
    }

    /// Checks the shapes of a matrix-vector product, for a matrix of `a`
    /// values and a vector of `x`. One that passes is also the matrix-matrix
    /// product with a matrix of one column.
    pub fn check_matvec(&self, a: usize, m: usize, n: usize, x: usize) -> (checked: Result<
        (),
        LinalgError,
    >)
        ensures
            checked is Ok <==> matvec_shape_failure(a as nat, m as nat, n as nat, x as nat)
                is None,
            invalid_text(checked) == matvec_shape_failure(a as nat, m as nat, n as nat, x as nat),
            checked is Ok ==> matmat_shape_failure(a as nat, m as nat, n as nat, x as nat, 1)
                is None,
    {
        if !is_product(a, m, n) || x != n || m == 0 || n == 0 {
            return Err(LinalgError::InvalidInput(matvec_message(a, m, n, x)));
        }
        assert(n as nat * 1 == n) by (nonlinear_arith);
        Ok(())
    }

    /// Checks the shapes of a matrix-matrix product, for matrices of `a` and
    /// `b` values.
    pub fn check_matmat(&self, a: usize, m: usize, k: usize, b: usize, n: usize) -> (checked:
        Result<(), LinalgError>)
        ensures
            checked is Ok <==> matmat_shape_failure(
                a as nat,
                m as nat,
                k as nat,
                b as nat,
                n as nat,
            ) is None,
            invalid_text(checked) == matmat_shape_failure(
                a as nat,
                m as nat,
                k as nat,
                b as nat,
                n as nat,
            ),
    {
        if !is_product(a, m, k) || !is_product(b, k, n) || m == 0 || k == 0 || n == 0 {
            return Err(LinalgError::InvalidInput(matmat_message(a, m, k, b, n)));
        }
        Ok(())
    }
}

/// The column-major position of an element: each lies within the matrix, and
/// no two elements share one.
pub proof fn lemma_column_major(m: nat, n: nat, row: nat, col: nat, row2: nat, col2: nat)
    requires
        row < m,
        col < n,
        row2 < m,
        col2 < n,
    ensures
        col * m + row < m * n,
        col * m + row == col2 * m + row2 ==> row == row2 && col == col2,
{
    assert(col * m + row < m * n) by (nonlinear_arith)
        requires
            row < m,
            col < n,
    ;
    if col < col2 {
        assert(col * m + row < col2 * m + row2) by (nonlinear_arith)
            requires
                row < m,
                col < col2,
        ;
    } else if col2 < col {
        assert(col2 * m + row2 < col * m + row) by (nonlinear_arith)
            requires
                row2 < m,
                col2 < col,
        ;
    }
}

} // verus!
