//! Text primitives: splitting, trimming, ordering and decimal numbers over
//! sequences of Unicode scalar values.

pub mod decimal;
pub mod order;
pub mod set;
pub mod slice;
pub mod text_laws;
pub mod utf8;
