//! Antbyte: a grid world of ants, each driven by a combinational function
//! of sensor bits that is compiled from a small language.
//!
//! The compiler: `token` turns source text into tokens, `parser` turns
//! tokens into the parsed form of `syntax`, `linker` puts the standard
//! library of `stdlib` and the imported files before the program,
//! `compiler` flattens and inlines every function into statements of the
//! one primitive `or`, and `assembler` finds the peripheral bits of an
//! ant's function and fills its truth table. `listing` writes compiled
//! functions and tables as text.
//!
//! The simulation: `world` steps the ants of a grid; `ant`, `peripherals`,
//! `truth_table` and `config` hold what a world is made of.
//!
//! `laws` states what holds of every compiled function and of every
//! world; `laws_text` follows one program from its characters to its
//! truth table, and `laws_tick` shows that every tick leaves the world in
//! order and that a world without kill, die and despawn loses no ant.
//! `matrix`, `vec2`, `bitvec`, `bits`, `circuit`, `text`, `util` and
//! `views` are the tools of the rest.

pub mod ant;
pub mod assembler;
pub mod bits;
pub mod bitvec;
pub mod circuit;
pub mod compiler;
pub mod config;
pub mod error;
pub mod laws;
pub mod laws_text;
pub mod laws_tick;
pub mod linker;
pub mod listing;
pub mod matrix;
pub mod parser;
pub mod peripherals;
pub mod stdlib;
pub mod syntax;
pub mod text;
pub mod token;
pub mod truth_table;
pub mod util;
pub mod vec2;
pub mod views;
pub mod world;
