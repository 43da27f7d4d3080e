//! A fixed-capacity, single-page key-value store for storage-engine metadata,
//! together with the tuple types of the surrounding engine.
//!
//! The store mirrors one page of a backing file in memory. Everything here
//! works on plain bytes: the caller reads the file, hands its contents to
//! [`store::MetadataStore::new`], and writes [`store::MetadataStore::page`]
//! back after every mutating call.
//!
//! - [`page`] fixes the layout of the page and says what its bytes mean.
//! - [`model`] is the store as a mathematical value, with the laws of its
//!   operations.
//! - [`store`] is the executable store.
//! - [`byte_order`] reads and writes the big-endian item count.
//! - [`assoc`] holds what is common to every index kept in a vector.
//! - [`tuple`] and [`named_tuple`] are the tuples of the heap file, and
//!   [`text`] writes integers in decimal for them.

pub mod assoc;
pub mod byte_order;
pub mod error;
pub mod model;
pub mod named_tuple;
pub mod page;
pub mod store;
pub mod text;
pub mod tuple;
