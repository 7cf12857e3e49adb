//! A package's declaration, rendered for someone to read.
//!
//! Everything a method declares is already in its signature, and none of
//! it is legible: a slot is a number, a claim is a tree of boxed variants.
//! This renders it in the vocabulary its author writes. The names come
//! from the metadata's own tables: the state table turns a slot into a
//! name, the configuration table turns a field's index into the field, so
//! nothing here is a second statement of what a package declares.
//!
//! A self-issued resource is spelled once. The tables carry a line for
//! every derivation the methods reach, grants and all, and a mention whose
//! kind and material name exactly one of those lines renders without them.
//!
//! A denomination the target's key already shows is not written again.
//!
//! Clauses are numbered by the preorder a clause index names, which is the
//! walk the declaration gate judges them in and the numbering a refusal's
//! clause index counts in. A binding names a top-level clause and a site of
//! its body; the exports line converts that coordinate to the listed
//! number of the exact line it covers.
//!
//! What a rendering says to its reader is stated beside it: [`words`] and
//! [`spelled`] of the smallest texts, [`reading`] of a declaration,
//! [`content`] of a record, [`refused`] and [`placed`] of a refusal.
pub mod admission;
pub mod census;
pub mod clause;
pub mod config;
pub mod content;
pub mod laws;
pub mod literal;
pub mod names;
pub mod package;
pub mod placed;
pub mod reading;
pub mod record;
pub mod refusal;
pub mod refused;
pub mod spelled;
pub mod words;

pub use admission::{explain_admission, explain_admission_tree};
pub use config::grants_read_config;
pub use literal::{address_text, claim_text};
pub use package::{explain, explain_method};
pub use record::explain_resource;
pub use refusal::{explain_refusal, explain_requirements};
