//! Request validation, query filters and record types of a cost item service.

pub mod check;
pub mod error;
pub mod filter;
pub mod model;
pub mod price;
