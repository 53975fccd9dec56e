//! A small interpreter for a Forth-like stack language, with its semantics
//! stated as spec functions and its executable code proved against them.
use vstd::prelude::*;

pub mod error;
pub mod forth;
pub mod laws;
pub mod operator;
pub mod semantics;
pub mod text;

pub use error::Error;
pub use forth::{Forth, InputValue, Variable};
pub use operator::Operator;

verus! {

} // verus!
