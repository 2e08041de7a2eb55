//! From commands to what stands on the paper.

pub mod columns;
pub mod ink;
pub mod stream;
pub mod ticket;
