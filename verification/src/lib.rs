//! A small C virtual machine: an assembler that lowers typed function trees
//! to stack-machine opcodes, and an interpreter that runs them over a
//! segmented, byte-granular memory.

pub mod util;
pub mod encoding;
pub mod runtime;
pub mod filedb;
pub mod interpreter;
pub mod library;
pub mod lossy;
pub mod printf;
pub mod ast;
pub mod assembler;
pub mod render;
pub mod hash_ref;
pub mod net;
pub mod shape;
