//! The exact core of a solver for polynomial equations in one variable.
//!
//! The crate reads an equation such as `5 + 4 * X = X^2` into signed terms,
//! decides how a polynomial is trimmed, printed and solved, and leaves every
//! numeric operation on coefficients to its caller: coefficients travel as
//! decimal text together with the few facts that the logic reads of them.

pub mod laws;
pub mod model;
pub mod parsing;
pub mod polinomial;
pub mod search;
pub mod text;
