//! Memory management for the earliest stage of boot.

pub mod start;
