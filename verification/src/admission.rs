//! What admission hands on: the manifest it lowered, what the protocol
//! asked of each node, and where a refusal points.
use vstd::prelude::*;

use crate::address::ResourceAddr;
use crate::effect::{Effect, EffectTarget, Presence};
use crate::intent::IntentRecord;
use crate::manifest::{JudgedLeaf, Manifest};
use crate::presented::Claim;
use crate::record::StoredRule;
use crate::resource::GrantedBehaviour;
use crate::rule::Rule;

verus! {

/// What an injected requirement asks, in the terms of whoever it came
/// from.
#[derive(Debug, PartialEq, Eq)]
pub enum Asks {
    /// What a resource's own entry asks.
    Entry(StoredRule),
    /// That the moving party is not halted.
    Unhalted,
}

/// One requirement the protocol put on a node, from a resource it moves.
#[derive(Debug, PartialEq, Eq)]
pub struct Injected {
    /// The rule the node is judged under.
    pub rule: Rule<JudgedLeaf>,
    /// What it asks.
    pub asks: Asks,
    /// The resource it came from.
    pub resource: ResourceAddr,
    /// The behaviour whose entry it is.
    pub behaviour: GrantedBehaviour,
}

/// A transaction admission accepted.
#[derive(Debug, PartialEq, Eq)]
pub struct Admitted {
    /// The manifest it lowered to.
    pub manifest: Manifest,
    /// What the protocol asked of each node, by the node's index.
    pub injected: Vec<Vec<Injected>>,
    /// The accesses it declares.
    pub effects: Vec<Effect>,
    /// The intents it is made of.
    pub intents: Vec<IntentRecord>,
}

impl Admitted {
    /// What the protocol asked of a node.
    pub open spec fn asked_of(self, node: int) -> Seq<Injected> {
        if 0 <= node < self.injected@.len() {
            self.injected@[node]@
        } else {
            Seq::empty()
        }
    }

    /// Fold in an access no signature declared.
    pub fn push_kernel_effect(&mut self, effect: Effect)
        ensures
            final(self).effects@ == old(self).effects@.push(effect),
            final(self).manifest == old(self).manifest,
            final(self).injected == old(self).injected,
            final(self).intents == old(self).intents,
    {
        self.effects.push(effect);
    }

    /// The same transaction, made of these intents.
    pub fn with_intents(self, intents: Vec<IntentRecord>) -> (r: Admitted)
        ensures
            r.intents == intents,
            r.effects == self.effects,
            r.manifest == self.manifest,
            r.injected == self.injected,
    {
        Admitted {
            manifest: self.manifest,
            injected: self.injected,
            effects: self.effects,
            intents,
        }
    }
}

/// A condition a transaction failed, as its verdict points at it.
#[derive(Clone, Copy, Debug, PartialEq, Eq)]
pub enum UnmetCondition {
    /// A leaf of committed state was not what it had to be.
    Holds {
        /// The leaf.
        target: EffectTarget,
        /// What it had to be.
        required: Presence,
        /// The node whose frame asked, where one did.
        node: Option<u32>,
    },
    /// What a node presented does not satisfy its rules.
    Satisfies {
        /// The node.
        node: u32,
    },
    /// A condition nothing about committed state could have satisfied.
    Unanswerable {
        /// The node whose frame asked, where one did.
        node: Option<u32>,
    },
}

/// Where a refusal at admission points.
#[derive(Clone, Copy, Debug, PartialEq, Eq, Structural)]
pub struct Placed {
    /// The intent, where the node's index is that intent's own.
    pub intent: Option<u32>,
    /// The node: of that intent, or in the flattened order.
    pub node: Option<u32>,
    /// The argument of the node's call.
    pub param: Option<u32>,
    /// The binding of the callee's export.
    pub abi: Option<u32>,
    /// The clause of the callee's declaration.
    pub clause: Option<u32>,
}

/// A refusal at admission, as it is read back: its sentence, where it
/// points, and the rule what was presented did not satisfy.
#[derive(Debug, PartialEq, Eq)]
pub struct Refusal {
    /// The refusal in its own words.
    pub sentence: String,
    /// Where it points.
    pub at: Placed,
    /// The rule evidence was judged against and did not satisfy, and what
    /// was presented.
    pub unsatisfied: Option<(Rule<Claim>, Vec<Claim>)>,
}

} // verus!
