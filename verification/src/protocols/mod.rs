//! The decisions that the node's protocols take about the bytes and messages they move.

pub mod packeting;
pub mod reading;
pub mod writing;
