//! Emulated main memory for a 32-bit big-endian target machine, modelled as a
//! byte-addressable buffer on a little-endian host.
//!
//! The core type is [`rdram::RDRAM`]: a byte region that is either owned by
//! the buffer or borrowed from an embedding host, read through a one-based,
//! big-endian indexing scheme, and measured by a word-aware logical length.

pub mod rdram;
