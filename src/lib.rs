//! An assembler for a small emoji-based instruction language: it tokenizes
//! source lines, encodes each statement into x86 machine code, resolves
//! labels across the program and lays out an ELF32 or Mach-O executable.

pub mod assembler;
pub mod common;
pub mod compiler;
pub mod config;
pub mod executable;
pub mod text;
pub mod tokenizer;
