//! The BLAS backend seam: multiplication-class operations on column-major
//! data.
//!
//! A backend answers "unavailable" as a result, never a panic, and inputs
//! that describe no valid problem are refused before any routine runs.
use crate::float64::Float64;
use crate::text::{decimal, push_size};
use vstd::prelude::*;

verus! {

/// The multiplication-class operations.
#[derive(Clone, Copy, PartialEq, Eq, Debug, Structural)]
pub enum BlasOp {
    /// Dot product.
    Dot,
    /// Matrix-vector multiply.
    MatVec,
    /// Matrix-matrix multiply.
    MatMat,
}

impl BlasOp {
    /// The operation's name.
    pub open spec fn name_text(self) -> Seq<char> {
        match self {
            BlasOp::Dot => "Dot"@,
            BlasOp::MatVec => "MatVec"@,
            BlasOp::MatMat => "MatMat"@,
        }
    }

    /// The operation's name.
    pub fn name(self) -> (name: &'static str)
        ensures
            name@ == self.name_text(),
    {
        match self {
            BlasOp::Dot => "Dot",
            BlasOp::MatVec => "MatVec",
            BlasOp::MatMat => "MatMat",
        }
    }
}

/// Why a BLAS call failed.
#[derive(Clone, PartialEq, Eq, Debug)]
pub enum BlasError {
    /// The backend cannot run this operation.
    Unsupported(BlasOp),
    /// The inputs do not describe a valid problem.
    InvalidInput(String),
}

impl BlasError {
    /// The error as text for a reader.
    pub fn to_text(&self) -> (text: String)
        ensures
            text@ == match self {
                BlasError::Unsupported(op) => "operation "@ + op.name_text()
                    + " is unavailable on this backend"@,
                BlasError::InvalidInput(message) => "invalid input: "@ + message@,
            },
    {
        match self {
            BlasError::Unsupported(op) => {
                let mut text = String::from_str("operation ");
                text.append(op.name());
                text.append(" is unavailable on this backend");
                text
            },
            BlasError::InvalidInput(message) => {
                let mut text = String::from_str("invalid input: ");
                text.append(message.as_str());
                text
            },
        }
    }
}

/// The backend seam.
pub trait BlasBackend {
    /// Whether this backend can run `op`.
    fn supports(&self, op: BlasOp) -> bool;

    /// The dot product of equal-length slices.
    fn dot(&self, x: &[Float64], y: &[Float64]) -> Result<Float64, BlasError>;

    /// The product of a column-major `m` by `n` matrix and a vector of length
    /// `n`: `m` values.
    fn matvec(&self, a: &[Float64], m: usize, n: usize, x: &[Float64]) -> Result<
        Vec<Float64>,
        BlasError,
    >;

    /// The product of column-major matrices, `m` by `k` and `k` by `n`: the
    /// column-major `m` by `n` product.
    fn matmat(&self, a: &[Float64], m: usize, k: usize, b: &[Float64], n: usize) -> Result<
        Vec<Float64>,
        BlasError,
    >;
}

/// What a result's error says, where it is one of invalid input.
pub open spec fn invalid_text<T>(result: Result<T, BlasError>) -> Option<Seq<char>> {
    match result {
        Err(BlasError::InvalidInput(message)) => Some(message@),
        _ => None,
    }
}

/// Why a number is no BLAS dimension, if so.
pub open spec fn dimension_failure(value: nat) -> Option<Seq<char>> {
    if value > i32::MAX {
        Some("dimension "@ + decimal(value) + " exceeds BLAS's i32"@)
    } else {
        None
    }
}

/// The first of two failures.
pub open spec fn either(first: Option<Seq<char>>, second: Option<Seq<char>>) -> Option<Seq<char>> {
    if first is Some {
        first
    } else {
        second
    }
}

/// Why two slices have no dot product, if so.
pub open spec fn dot_failure(x: nat, y: nat) -> Option<Seq<char>> {
    if x != y {
        Some("dot needs equal lengths, got "@ + decimal(x) + " and "@ + decimal(y))
    } else {
        dimension_failure(x)
    }
}

/// Why a matrix and a vector have no product, if so: the shapes.
pub open spec fn matvec_shape_failure(a: nat, m: nat, n: nat, x: nat) -> Option<Seq<char>> {
    if a != m * n || x != n || m == 0 || n == 0 {
        Some(
            "matvec needs a: m*n = "@ + decimal(m) + "*"@ + decimal(n) + " and x: "@ + decimal(n)
                + ", got a: "@ + decimal(a) + " and x: "@ + decimal(x),
        )
    } else {
        None
    }
}

/// Why two matrices have no product, if so: the shapes.
pub open spec fn matmat_shape_failure(a: nat, m: nat, k: nat, b: nat, n: nat) -> Option<
    Seq<char>,
> {
    if a != m * k || b != k * n || m == 0 || k == 0 || n == 0 {
        Some(
            "matmat needs a: "@ + decimal(m) + "*"@ + decimal(k) + " and b: "@ + decimal(k) + "*"@
                + decimal(n) + ", got a: "@ + decimal(a) + " and b: "@ + decimal(b),
        )
    } else {
        None
    }
}

/// Whether `len` is the product of two numbers.
pub(crate) fn is_product(len: usize, m: usize, n: usize) -> (is: bool)
    ensures
        is == (len == m * n),
{
    match m.checked_mul(n) {
        Some(product) => len == product,
        None => false,
    }
}

/// Says what a matrix-vector product needs.
pub(crate) fn matvec_message(a: usize, m: usize, n: usize, x: usize) -> (text: String)
    requires
        matvec_shape_failure(a as nat, m as nat, n as nat, x as nat) is Some,
    ensures
        Some(text@) == matvec_shape_failure(a as nat, m as nat, n as nat, x as nat),
{
    let mut text = String::from_str("matvec needs a: m*n = ");
    push_size(&mut text, m);
    text.append("*");
    push_size(&mut text, n);
    text.append(" and x: ");
    push_size(&mut text, n);
    text.append(", got a: ");
    push_size(&mut text, a);
    text.append(" and x: ");
    push_size(&mut text, x);
    text
}

/// Says what a matrix-matrix product needs.
pub(crate) fn matmat_message(a: usize, m: usize, k: usize, b: usize, n: usize) -> (text: String)
    requires
        matmat_shape_failure(a as nat, m as nat, k as nat, b as nat, n as nat) is Some,
    ensures
        Some(text@) == matmat_shape_failure(a as nat, m as nat, k as nat, b as nat, n as nat),
{
    let mut text = String::from_str("matmat needs a: ");
    push_size(&mut text, m);
    text.append("*");
    push_size(&mut text, k);
    text.append(" and b: ");
    push_size(&mut text, k);
    text.append("*");
    push_size(&mut text, n);
    text.append(", got a: ");
    push_size(&mut text, a);
    text.append(" and b: ");
    push_size(&mut text, b);
    text
}

/// Says that a dot product needs equal lengths.
pub(crate) fn dot_message(x: usize, y: usize) -> (text: String)
    ensures
        text@ == "dot needs equal lengths, got "@ + decimal(x as nat) + " and "@ + decimal(
            y as nat,
        ),
{
    let mut text = String::from_str("dot needs equal lengths, got ");
    push_size(&mut text, x);
    text.append(" and ");
    push_size(&mut text, y);
    text
}

/// A dimension as BLAS takes it, rejecting what does not fit.
pub fn as_blas_dim(value: usize) -> (dimension: Result<i32, BlasError>)
    ensures
        match dimension {
            Ok(d) => d == value && dimension_failure(value as nat) is None,
            Err(_) => dimension_failure(value as nat) is Some,
        },
        invalid_text(dimension) == dimension_failure(value as nat),
{
    if value > 0x7FFF_FFFF {
        let mut text = String::from_str("dimension ");
        push_size(&mut text, value);
        text.append(" exceeds BLAS's i32");
        Err(BlasError::InvalidInput(text))
    } else {
        Ok(value as i32)
    }
}

/// The native backend: system BLAS, linked as it is. What it accepts and what
/// the routines are told.
#[derive(Clone, Copy, Debug, Default)]
pub struct NativeBlas;

impl NativeBlas {
    /// Whether this backend can run `op`: it runs them all.
    pub fn supports(&self, op: BlasOp) -> (supported: bool)
        ensures
            supported,
    {
        match op {
            BlasOp::Dot => true,
            BlasOp::MatVec => true,
            BlasOp::MatMat => true,
        }
    }

    /// The length to hand the dot routine.
    pub fn dot_dims(&self, x: usize, y: usize) -> (dims: Result<i32, BlasError>)
        ensures
            match dims {
                Ok(n) => n == x && dot_failure(x as nat, y as nat) is None,
                Err(_) => dot_failure(x as nat, y as nat) is Some,
            },
            invalid_text(dims) == dot_failure(x as nat, y as nat),
    {
        if x != y {
            return Err(BlasError::InvalidInput(dot_message(x, y)));
        }
        as_blas_dim(x)
    }

    /// The dimensions to hand the matrix-vector routine, for a matrix of `a`
    /// values and a vector of `x`.
    pub fn matvec_dims(&self, a: usize, m: usize, n: usize, x: usize) -> (dims: Result<
        (i32, i32),
        BlasError,
    >)
        ensures
            ({
                let failure = either(
                    matvec_shape_failure(a as nat, m as nat, n as nat, x as nat),
                    either(dimension_failure(m as nat), dimension_failure(n as nat)),
                );
                &&& match dims {
                    Ok((m_i, n_i)) => m_i == m && n_i == n && failure is None,
                    Err(_) => failure is Some,
                }
                &&& invalid_text(dims) == failure
            }),
    {
        if !is_product(a, m, n) || x != n || m == 0 || n == 0 {
            return Err(BlasError::InvalidInput(matvec_message(a, m, n, x)));
        }
        match as_blas_dim(m) {
            Ok(m_i) => match as_blas_dim(n) {
                Ok(n_i) => Ok((m_i, n_i)),
                Err(error) => Err(error),
            },
            Err(error) => Err(error),
        }
    }

    /// The dimensions to hand the matrix-matrix routine, for matrices of `a`
    /// and `b` values.
    pub fn matmat_dims(&self, a: usize, m: usize, k: usize, b: usize, n: usize) -> (dims: Result<
        (i32, i32, i32),
        BlasError,
    >)
        ensures
            ({
                let failure = either(
                    matmat_shape_failure(a as nat, m as nat, k as nat, b as nat, n as nat),
                    either(
                        dimension_failure(m as nat),
                        either(dimension_failure(k as nat), dimension_failure(n as nat)),
                    ),
                );
                &&& match dims {
                    Ok((m_i, k_i, n_i)) => m_i == m && k_i == k && n_i == n && failure is None,
                    Err(_) => failure is Some,
                }
                &&& invalid_text(dims) == failure
            }),
    {
        if !is_product(a, m, k) || !is_product(b, k, n) || m == 0 || k == 0 || n == 0 {
            return Err(BlasError::InvalidInput(matmat_message(a, m, k, b, n)));
        }
        match as_blas_dim(m) {
            Ok(m_i) => match as_blas_dim(k) {
                Ok(k_i) => match as_blas_dim(n) {
                    Ok(n_i) => Ok((m_i, k_i, n_i)),
                    Err(error) => Err(error),
                },
                Err(error) => Err(error),
            },
            Err(error) => Err(error),
        }
    }
}

} // verus!
