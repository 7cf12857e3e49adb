//! Effect signatures, the access language, and the gates a package's
//! declaration passes.
//!
//! Capability is a pure function of the signed transaction plus immutable
//! package metadata. Every callable method carries an effect signature: a
//! total function from its typed inputs to a declared set of keys and
//! modes, written in a restricted language of field projections, keyed
//! lookups over input values, canonical-address computation, bounded
//! collection mapping, and point and range targets.
//!
//! What is here is the vocabulary of those declarations and everything
//! judged or derived from it without reading state:
//!
//! - [`publish`] judges a signature and a package's tables at publish, and
//!   [`cache`] holds what passed;
//! - [`explain`] renders a declaration, a record or a refusal for someone
//!   to read;
//! - [`footprint`] prices a declaration;
//! - [`graph`], [`intent`] and [`tree`] are the signed manifest, its
//!   identities, and the admission of a tree of intents;
//! - [`instance`] resolves a call target to its creation-fixed record;
//! - [`promises`], [`sameness`] and [`walks`] state what the smaller
//!   judgments promise, when two pieces of a declaration are the same
//!   piece, and what a walk of one reaches.
//!
//! The crate is isolated: hashing binds through the [`hash::Hasher`] seam,
//! and the wire encodings come in as bytes.
pub mod address;
pub mod admission;
pub mod cache;
pub mod dsl;
pub mod effect;
pub mod explain;
pub mod footprint;
pub mod graph;
pub mod hash;
pub mod instance;
pub mod intent;
pub mod invoke;
pub mod manifest;
pub mod metadata;
pub mod presented;
pub mod promises;
pub mod publish;
pub mod record;
pub mod resource;
pub mod rule;
pub mod runs;
pub mod sameness;
pub mod shape;
pub mod signature;
pub mod table;
pub mod term;
pub mod text;
pub mod tree;
pub mod types;
pub mod verdict;
pub mod vocabulary;
pub mod walks;
