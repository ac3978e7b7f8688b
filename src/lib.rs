//! A steppable, re-iterable integer range with a verified pull cursor.

pub mod decimal;
pub mod laws;
pub mod range;

pub use range::{range, JsIteratorResult, Range, RangeError};
