//! The SEIR epidemic model and the bookkeeping around its adaptive
//! integration.
//!
//! - `model`: the model's equations in exact arithmetic, and what follows
//!   from them.
//! - `scalar`: the numbers as the integrator hands them over, by their
//!   encodings; `fixed`: the same numbers on a grid on which sums are exact.
//! - `trajectory`: the recorded points and what must hold of a finished
//!   recording; `conservation`: whether the recorded fractions add up to one.
//! - `outcome`: how an integration ends; `driver`: what is printed and done
//!   then.
//! - `csv`: the table that a trajectory is exported as.
//!
//! The integration itself is floating-point work and is done by the caller,
//! who hands over its results: numbers by their encodings, statistics as
//! counts, and the text of each number that is to be written.

pub mod conservation;
pub mod csv;
pub mod driver;
pub mod fixed;
pub mod model;
pub mod outcome;
pub mod scalar;
pub mod trajectory;

pub use crate::csv::save;
