//! A verified Caesar (additive shift) cipher.
//!
//! The cipher rotates the 26 ASCII uppercase letters and the 26 ASCII
//! lowercase letters by a fixed shift, each within its own ring, and leaves
//! every other character unchanged.  Alongside the cipher itself the crate
//! holds the shift-parsing policy (an invalid shift string degrades to the
//! identity cipher instead of failing) and the state transition of the small
//! interactive front end that drives the cipher.

pub mod cipher;
pub mod parse;
pub mod state;
