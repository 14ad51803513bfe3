//! MYPS, a small scripting language for Stationeers IC10 chips, and the pieces of the
//! IC10 MIPS dialect that it compiles to: a grammar for MYPS values and assignments,
//! the block structure of MYPS programs, a translator from MYPS items to IC10 units,
//! and the IC10 register syntax.
pub mod grammar;
pub mod lexer;
pub mod mips;
pub mod spans;
pub mod translator;
pub mod words;
