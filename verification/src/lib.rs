//! A causally masked, multi-resolution similarity matrix.
//!
//! For two sequences of feature vectors the library scores every
//! (key, query) pair with key <= query: keys inside a sliding window get a
//! full-resolution dot product, keys just outside get a dot product against a
//! 2-wide pooled key vector, far keys against a 4-wide pooled one, and
//! everything not aligned to the pooling stride is skipped and left at zero.

pub mod level;
pub mod points;
pub mod reducer;
