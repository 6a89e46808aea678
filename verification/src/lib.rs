//! Core of a CHIP-8 virtual machine: a register file, 4096 bytes of memory,
//! a call stack, a monochrome framebuffer, a keypad latch and the
//! fetch-decode-execute engine that ties them together.
//!
//! Presentation, audio, keyboard mapping and configuration files are left to
//! the embedding application; the core exchanges only plain values with it.

pub mod alu;
pub mod chip8;
pub mod config;
pub mod cpu;
pub mod decode;
pub mod keypad;
pub mod screen;
pub mod stack;
