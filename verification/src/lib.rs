//! Constraints and witnesses for updates of a binary Merkle-Patricia trie.
//!
//! A circuit is a table of field elements, one row per node of an update's
//! path, together with gates, formulas that must be worth zero at every row, and
//! lookups, tuples of formulas that must occur as rows of a table. This crate
//! declares the circuit of a batch of trie updates, fills its table for a
//! given batch, and proves that the filled table satisfies the declared
//! constraints.
//!
//! - [`field`] and [`bits`]: the elements of the field and their bits.
//! - [`region`]: the table of cells.
//! - [`query`] and [`column`]: formulas over cells, and the handles of columns
//!   that build them and write cells.
//! - [`constraint_builder`] and [`constraint_system`]: collecting gates and
//!   lookups, compiling them, and checking a region against them.
//! - [`hash_type`]: the roles of trie nodes and the two tables of legal pairs.
//! - [`operations`] and [`op_rules`]: the chip that constrains and assigns
//!   operations, and what its gates and lookups mean.
//! - [`mpt`]: the circuit of a batch, and its witness.
//! - [`validity`]: which batches are valid, and the proof that their witness
//!   satisfies the circuit.
//! - [`recover`]: reading a batch back from its witness.
//! - [`poseidon`]: the table of hashes.
//! - [`util`]: words of 256 bits, bytes and digits as field elements.

pub mod bits;
pub mod column;
pub mod constraint_builder;
pub mod constraint_system;
pub mod field;
pub mod hash_type;
pub mod mpt;
pub mod op_rules;
pub mod operations;
pub mod poseidon;
pub mod query;
pub mod recover;
pub mod region;
pub mod util;
pub mod validity;
