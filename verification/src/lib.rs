//! Small verified building blocks around moving, borrowing and lifetimes:
//! functions that hand ownership back and forth, string slicing that
//! returns borrows of its input, and generic callers of closures.

pub mod lifetimes;
pub mod ownership;
