//! A small Java virtual machine core: class-file decoding, linking and a
//! bytecode interpreter, with machine-checked contracts.
//!
//! From the bytes to the running program:
//!
//! - [`reader`] reads big-endian numbers; [`deserialize`] decodes a class
//!   file into its raw structure; [`parse`] resolves constants and gives
//!   fields, methods and code their meaning; [`descriptor`] parses the
//!   descriptors of types.
//! - [`heap`] holds the objects; [`klass`] the records of the loaded
//!   classes, their field layouts and their hierarchy; [`memory`] takes a
//!   class from its bytes to its initialization; [`strings`] makes and reads
//!   Java strings.
//! - [`cell`] is the arithmetic of the 32-bit cells; [`instr`] the
//!   instruction set and its decoding; [`frame`], [`objects`], [`fields`],
//!   [`constants`] and [`interp`] are the instructions that stay in their
//!   frame; [`thread`] the invocations, returns and exceptions; [`native`]
//!   the native methods; [`machine`] one step of a thread.
//! - [`vm`] is the machine as its host sees it: it computes, and asks the
//!   host for what it cannot compute, the bytes of a class, the time and
//!   the arithmetic of floating-point numbers.
//! - [`laws`] holds what is proved of the whole.

pub mod cell;
pub mod constants;
pub mod descriptor;
pub mod deserialize;
pub mod error;
pub mod fields;
pub mod frame;
pub mod heap;
pub mod instr;
pub mod interp;
pub mod klass;
pub mod laws;
pub mod machine;
pub mod memory;
pub mod native;
pub mod objects;
pub mod parse;
pub mod reader;
pub mod strings;
pub mod thread;
pub mod vm;
