//! Optimizations of translated units.
pub mod registers;
