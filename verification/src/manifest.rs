//! The manifest as routing consumes it: typed invocation nodes in
//! topological order, with value flows bound as literals or as edges
//! carrying a static resource type.
//!
//! Routing reads only what signatures evaluate over: each node's target,
//! method, and bound inputs. Amounts are dynamic; types are static.
use vstd::prelude::*;

use crate::address::{Address, ResourceAddr};
use crate::effect::{EffectTarget, Presence};
use crate::hash::Hash32;
use crate::presented::Claim;
use crate::rule::{Judged, Leaf};
use crate::types::{EdgeContent, SubstateKey, Value};

verus! {

/// A consumer's signed amount bounds on an edge, folded to their
/// conjunction: the greatest declared lower bound and the least declared
/// upper bound.
#[derive(Clone, Copy, Debug, PartialEq, Eq, Structural)]
pub struct Bounds {
    /// The greatest declared lower bound, if any.
    pub min: Option<u128>,
    /// The least declared upper bound, if any.
    pub max: Option<u128>,
}

impl Default for Bounds {
    fn default() -> (r: Bounds)
        ensures
            r == (Bounds { min: None, max: None }),
    {
        Bounds { min: None, max: None }
    }
}

impl Bounds {
    /// Whether an amount is inside both bounds.
    pub open spec fn holds(self, amount: u128) -> bool {
        &&& self.min matches Some(min) ==> min <= amount
        &&& self.max matches Some(max) ==> amount <= max
    }

    /// Whether `amount` satisfies both bounds.
    pub fn admits(&self, amount: u128) -> (r: bool)
        ensures
            r == self.holds(amount),
    {
        let over_min = match self.min {
            Some(min) => amount >= min,
            None => true,
        };
        let under_max = match self.max {
            Some(max) => amount <= max,
            None => true,
        };
        over_min && under_max
    }
}

/// One bound argument of an invocation node.
#[derive(Debug, PartialEq, Eq)]
pub enum NodeInput {
    /// A literal from the signed envelope.
    Literal(Value),
    /// An inbound value edge from an earlier node's output. Routing sees
    /// only the edge's static resource type.
    Edge {
        /// The producing node's index; earlier than the consumer.
        source: u32,
        /// Which of the producer's outputs this edge carries.
        output: u32,
        /// The resource type the edge carries.
        resource: ResourceAddr,
        /// What the edge carries besides: a dynamic amount, or the named
        /// instances the producer's evaluated projection declares.
        content: EdgeContent,
        /// The consumer's signed bounds on the amount, folded to their
        /// conjunction at admission.
        bounds: Bounds,
    },
}

/// A method invocation node.
#[derive(Debug, PartialEq, Eq)]
pub struct Node {
    /// The target instance, named in the manifest.
    pub target: Address,
    /// The method to invoke on the target.
    pub method: String,
    /// The node's bound inputs, in the method's parameter order.
    pub inputs: Vec<NodeInput>,
    /// The claims this call presents, resolved from the signed evidence
    /// the node names. Empty for a call requiring none.
    pub evidence: Vec<Claim>,
}

/// A judged rule's leaf: the evaluated twin of a declared rule's leaf,
/// every expression resolved to the claim a caller must present or the
/// cell a stored rule is read from.
#[derive(Clone, Copy, Debug, PartialEq, Eq)]
pub enum JudgedLeaf {
    /// A claim the presented set must contain.
    Claim(Claim),
    /// The rule stored at this cell, judged where the cell lives. An
    /// unwritten cell holds no rule, and no rule admits nobody.
    Stored {
        /// The cell the rule lives in.
        cell: SubstateKey,
    },
    /// The leaf this target names is there, or is not: the one leaf whose
    /// answer is in the store rather than in what the call presented.
    Presence {
        /// The leaf the question is about.
        target: EffectTarget,
        /// What must be true of it.
        expect: Presence,
    },
}

impl Leaf for JudgedLeaf {
    open spec fn stage(self) -> Judged {
        match self {
            JudgedLeaf::Claim(_) => Judged::AtAdmission,
            JudgedLeaf::Stored { .. } => Judged::InTheLeg,
            JudgedLeaf::Presence { .. } => Judged::AtMaterialization,
        }
    }

    /// A presence's answer is in the store; a claim's is in what the call
    /// presented; a stored rule's is readable only where the evidence and
    /// the session meet.
    fn judged(&self) -> (r: Judged) {
        match self {
            JudgedLeaf::Claim(_) => Judged::AtAdmission,
            JudgedLeaf::Stored { .. } => Judged::InTheLeg,
            JudgedLeaf::Presence { .. } => Judged::AtMaterialization,
        }
    }
}

/// A manifest: invocation nodes in topological order.
#[derive(Debug, PartialEq, Eq)]
pub struct Manifest {
    /// The invocation nodes; an edge's source index is always smaller than
    /// its consumer's.
    pub nodes: Vec<Node>,
}

impl Default for Manifest {
    fn default() -> (r: Manifest)
        ensures
            r.nodes@.len() == 0,
    {
        Manifest { nodes: Vec::new() }
    }
}

/// A transaction's identity: the signed graph's hash.
#[derive(Clone, Copy, Debug, PartialEq, Eq)]
pub struct ManifestHash(pub Hash32);

/// A rule is judged before anything commits exactly where its leaves do
/// not have to be read together with a session: where they are all claims,
/// all presences, or there are none.
pub proof fn law_a_rule_is_judged_early(rule: crate::rule::Rule<JudgedLeaf>)
    ensures
        rule.stage().is_before_any_leg() == ({
            let leaves = rule.all_leaves();
            ||| forall|i: int| 0 <= i < leaves.len() ==> (#[trigger] leaves[i]) is Claim
            ||| forall|i: int| 0 <= i < leaves.len() ==> (#[trigger] leaves[i]) is Presence
        }),
{
    let leaves = rule.all_leaves();
    if leaves.len() > 0 {
        let first = leaves[0];
        if rule.stage().is_before_any_leg() {
            assert forall|i: int| 0 <= i < leaves.len() implies (#[trigger] leaves[i]).stage()
                == first.stage() by {}
            if first is Claim {
                assert forall|i: int| 0 <= i < leaves.len() implies (#[trigger] leaves[i])
                    is Claim by {
                    assert(leaves[i].stage() == first.stage());
                }
            } else {
                assert forall|i: int| 0 <= i < leaves.len() implies (#[trigger] leaves[i])
                    is Presence by {
                    assert(leaves[i].stage() == first.stage());
                }
            }
        } else if first is Claim && (forall|i: int|
            0 <= i < leaves.len() ==> (#[trigger] leaves[i]) is Claim) {
            assert(forall|i: int|
                0 <= i < leaves.len() ==> (#[trigger] leaves[i]).stage() == first.stage());
        } else if forall|i: int| 0 <= i < leaves.len() ==> (#[trigger] leaves[i]) is Presence {
            assert(forall|i: int|
                0 <= i < leaves.len() ==> (#[trigger] leaves[i]).stage() == first.stage());
        }
    }
}

} // verus!
