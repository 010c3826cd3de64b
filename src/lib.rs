pub mod decimal;
pub mod differ;
pub mod laws;
pub mod source;

pub use decimal::push_decimal;
pub use differ::{DiffMode, Differ, Segment};
