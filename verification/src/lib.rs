//! Memorable-password generation with verified selection, length-bounds
//! checking and exact entropy bookkeeping.

pub mod entropy;
pub mod password;
pub mod rng;
pub mod sampling;
pub mod selection;
pub mod strutil;
pub mod util;
pub mod wordlists;
