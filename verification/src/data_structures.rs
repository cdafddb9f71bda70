//! Containers that need no heap growth policy of their own.

pub mod capacity_vec;
