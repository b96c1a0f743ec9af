//! A single-pass compiler and stack-based bytecode virtual machine for a
//! small dynamically typed scripting language. Source text is lexed,
//! parsed with operator precedence, emitted directly as bytecode, and
//! executed on a fixed-capacity operand stack; strings live in a
//! process-wide interner that gives stable symbol identity.

pub mod chunk;
pub mod compiler;
pub mod fnv;
pub mod interner;
pub mod num;
pub mod scanner;
pub mod value;
pub mod vm;
