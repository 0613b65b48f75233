//! A bytecode interpreter for a small Lox-style scripting language.
//!
//! Source text is scanned lazily into tokens ([`scanner`]), compiled in a single
//! pass into a chunk of bytecode ([`compiler`], [`chunk`]), and executed by a
//! stack machine ([`vm`]).
//!
//! Numbers are IEEE-754 binary64 values. The library carries every number as
//! its 64-bit pattern and decides sign, equality and order on that pattern
//! ([`number`]). What needs rounding is left to the host: the compiler takes
//! the patterns of the number literals from a table; the machine stops and
//! asks for sums, differences, products and quotients; and a number to print
//! is handed over for the host to write in decimal.
//!
//! Four modules hold what is proved of the whole: that parsing always moves
//! forward ([`progress`]); that the compiler emits valid code, on which the
//! machine meets no error in the code itself ([`valid_code`]); that the code
//! of an expression computes the value of the expression ([`semantics`]); and
//! that a compiled program prints what its statements print and defines the
//! globals that they define ([`programs`]).
#![allow(non_camel_case_types)]
#![allow(unused_imports)]

pub mod chunk;
pub mod common;
pub mod compiler;
pub mod number;
pub mod object;
pub mod programs;
pub mod progress;
pub mod scanner;
pub mod semantics;
pub mod valid_code;
pub mod value;
pub mod vm;
