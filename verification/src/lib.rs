//! A minimal text-mode display driver for a memory-mapped character grid,
//! together with the exit-code signalling used by its runtime shell.
//!
//! The driver renders ASCII bytes into a fixed 25 x 80 grid of two-byte
//! cells (character byte plus colour attribute byte), with line wrapping,
//! one-line scrolling and row clearing. Every access to the grid goes
//! through guaranteed-visible volatile reads and writes, so that a
//! compiler can neither elide nor reorder the hardware-observable stores.

pub mod runtime;
pub mod vga_buffer;
