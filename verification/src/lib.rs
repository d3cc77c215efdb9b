//! `x_map` is a small, insertion-order-preserving associative container built
//! over two parallel, manually grown buffers: one for keys and one for values.
//!
//! The container is aimed at callers that want predictable, contiguous storage
//! with ordered insertion, order-preserving removal, and a choice of lookup
//! strategies: by position, by logical key equality, or by a raw byte-wise
//! comparison of the key's in-memory representation.

pub mod error;
pub mod maps;
pub mod util;
