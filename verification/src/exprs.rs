//! The experimental typed expression algebra: literals, addition,
//! equality.

pub mod boolean;
pub mod integer;
