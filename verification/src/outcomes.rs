//! What the operations are for: what each call gives back and changes, in terms
//! of what it was given.
//!
//! A law here speaks of the outcome of a call, whatever that is: `call_ensures`
//! holds of a function, its arguments and each result that it may return for
//! them.

pub mod pages;
pub mod pools;
pub mod requests;
