//! The lowered form of a manifest node: which export to call, and where
//! each of its arguments comes from.
//!
//! Everything a binding names is resolvable before execution except one
//! thing: a bucket's amount, which is whatever the producing node actually
//! returned. So a lowered argument is either a settled value, a table
//! position, or an edge to read once its producer has run.
use vstd::prelude::*;

use crate::address::{Address, ResourceAddr};
use crate::manifest::{Bounds, JudgedLeaf};
use crate::metadata::PackageHash;
use crate::presented::Presented;
use crate::rule::Rule;
use crate::term::copy_ids;
use crate::types::{EdgeContent, MAX_IDS_PER_EDGE};

verus! {

/// What kind of value an edge carries.
///
/// Declared, evaluated from the producing method's output projection, and
/// never sniffed from what crosses.
#[derive(Clone, Copy, Debug, PartialEq, Eq, Structural)]
pub enum EdgeKind {
    /// The edge carries a dynamic amount.
    Fungible,
    /// The edge carries named instances.
    NonFungible,
}

impl EdgeKind {
    /// The cell shape a projection's content crosses the boundary as.
    pub fn of(content: &EdgeContent) -> (r: Self)
        ensures
            r == (if content is Fungible {
                EdgeKind::Fungible
            } else {
                EdgeKind::NonFungible
            }),
    {
        match content {
            EdgeContent::Fungible => EdgeKind::Fungible,
            EdgeContent::NonFungible { .. } => EdgeKind::NonFungible,
        }
    }
}

/// The ids a non-fungible edge carries, as a set, or nothing for a list
/// that is not one: more than [`MAX_IDS_PER_EDGE`], or a repeated id.
///
/// An id set is distinct wherever it exists, so an id count is an instance
/// count everywhere it is judged.
pub fn distinct_ids(ids: &[u64]) -> (r: Option<Vec<u64>>)
    ensures
        match r {
            Some(held) => held@ == ids@ && ids@.len() <= MAX_IDS_PER_EDGE && ids@.no_duplicates(),
            None => ids@.len() > MAX_IDS_PER_EDGE || !ids@.no_duplicates(),
        },
{
    if ids.len() > MAX_IDS_PER_EDGE {
        return None;
    }
    let mut index: usize = 0;
    while index < ids.len()
        invariant
            index <= ids.len(),
            forall|i: int, j: int| 0 <= i < j < index ==> ids@[i] != ids@[j],
        decreases ids.len() - index,
    {
        let mut earlier: usize = 0;
        while earlier < index
            invariant
                earlier <= index < ids.len(),
                forall|i: int| 0 <= i < earlier ==> ids@[i] != ids@[index as int],
            decreases index - earlier,
        {
            if ids[earlier] == ids[index] {
                return None;
            }
            earlier = earlier + 1;
        }
        index = index + 1;
    }
    Some(copy_ids(ids))
}

/// The world type a handle has, by the tag the engine knows it under.
#[derive(Clone, Copy, Debug, PartialEq, Eq, Structural)]
pub struct CellKind(pub u8);

/// Where one argument of an export comes from.
#[derive(Debug, PartialEq, Eq)]
pub enum CallArg {
    /// The capability at this position in the transaction's materialized
    /// table.
    Handle(u32),
    /// The cell an earlier node produced on one of its output edges.
    Bucket {
        /// The producing node's index in the flattened manifest.
        source: u32,
        /// Which of the producer's outputs the edge carries.
        output: u32,
    },
    /// A handle position no capability occupies: the clause that would
    /// have backed it was guarded out. The kind travels because nothing
    /// downstream can recover it.
    AbsentHandle(CellKind),
    /// A clause's own guard verdict, as the export's `bool`.
    Bool(bool),
    /// A 64-bit scalar the signature derived from the node's inputs.
    U64(u64),
    /// An address the signature derived from the node's inputs.
    Address(Address),
    /// A byte string the signature derived from the node's inputs.
    Bytes(Vec<u8>),
    /// A set of non-fungible instance ids.
    Ids(Vec<u64>),
    /// This invocation's authority to issue. Carries nothing: the grant is
    /// that it exists.
    Issuer,
}

/// One edge a node consumes, with the bound its consumer signed.
///
/// Separate from the argument list, because the two are not the same set:
/// a method that forwards its funds never reads the amount, and the bound
/// is still the signer's, still owed a check.
#[derive(Clone, Copy, Debug, PartialEq, Eq, Structural)]
pub struct EdgeBound {
    /// The producing node's index in the flattened manifest.
    pub source: u32,
    /// Which of the producer's outputs the edge carries.
    pub output: u32,
    /// The declared shape of the carried cell, which is what the bound is
    /// judged over: a fungible edge's amount, a non-fungible edge's id
    /// count.
    pub kind: EdgeKind,
    /// The consuming node's declared parameter the edge is bound to.
    pub param: u32,
    /// The consumer's signed bounds on the amount, folded to their
    /// conjunction at admission.
    pub bounds: Bounds,
}

/// One manifest node lowered to the invocation it performs.
#[derive(Debug, PartialEq, Eq)]
pub struct NodeCall {
    /// The package whose code runs.
    pub package: PackageHash,
    /// The instance invoked.
    pub target: Address,
    /// The guest export to invoke. A method's name is its export name.
    pub export: String,
    /// One entry per exported parameter, in the export's own order.
    pub args: Vec<CallArg>,
    /// Every value edge the node consumes, in its declared parameter
    /// order, each with the bound its consumer signed.
    pub edges: Vec<EdgeBound>,
    /// The declared cell shape of each value edge the node produces, in
    /// output order.
    pub outputs: Vec<EdgeKind>,
    /// The resource this node's method may bring into being, where its
    /// declaration says it brings one.
    pub issues: Option<ResourceAddr>,
    /// The claims this call presents.
    pub evidence: Vec<Presented>,
    /// The authority conditions this node's declaration requires, each a
    /// judged rule. All must be satisfied.
    pub conditions: Vec<Rule<JudgedLeaf>>,
}

} // verus!
