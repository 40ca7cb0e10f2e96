//! A growable, dense bit field backed by a sequence of 32-bit words.
//!
//! Bit `n` lives in word `n / 32` at offset `n % 32`. Words that were never
//! materialised read as zero, so every index is valid for reading and writing.
//!
//! The bit arithmetic, the growth and the ascending scan are written once,
//! over any `WordStore`; `Yabf` keeps its words in a `Vec<u32>`, `SmallYabf`
//! in a `SmallVec` that holds the first four words inline.

pub mod laws;
mod ops;
pub mod render;
mod small_store;
mod small_yabf;
pub mod store;
pub mod words;
mod yabf;

pub use small_yabf::{SmallYabf, SmallYabfIterator};
pub use yabf::{Yabf, YabfIterator};
