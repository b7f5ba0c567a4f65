//! Core of a columnar CRDT operation store.
//!
//! - [`leb`]: the LEB128 encoding, its byte counts and its decoders;
//! - [`pack`]: how one value of a column is unpacked and validated;
//! - [`meta`]: the value-metadata word, a type code and a byte length;
//! - [`types`], [`owned`]: actors, actions, scalar values, keys and marks,
//!   borrowed from the columns and owned;
//! - [`column`]: a run-length packed column and the cursor that walks it
//!   with the running total of its group;
//! - [`values`]: scalar values read from the metadata column and the raw
//!   bytes beside it;
//! - [`ids`], [`op`]: the operation record and its visibility at a clock;
//! - [`op_iter`]: walks over the operations of a store, all of them, the
//!   visible ones, and the winners; [`top_laws`] says what the last hands
//!   out;
//! - [`found_op`]: the operations of a walk grouped by key; [`found_laws`]
//!   says what the groups are;
//! - [`index`]: the visibility index of a tree node; [`index_laws`] says how
//!   insertion, removal and merging go together;
//! - [`fx`]: the hash collections of the index.

pub mod column;
pub mod found_laws;
pub mod found_op;
pub mod fx;
pub mod ids;
pub mod index;
pub mod index_laws;
pub mod leb;
pub mod meta;
pub mod op;
pub mod op_iter;
pub mod owned;
pub mod pack;
pub mod top_laws;
pub mod types;
pub mod values;
