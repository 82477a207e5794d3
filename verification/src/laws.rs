//! What holds of single rules for every input.

pub mod headers;
pub mod hosts;
pub mod methods;
