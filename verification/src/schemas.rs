//! The shapes of the records that the sources give.

pub mod common;
pub mod computing;
pub mod money;
