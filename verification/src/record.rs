//! A resource's own record, and the rules it seals.
use vstd::prelude::*;

use crate::address::{Address, ResourceAddr};
use crate::presented::Claim;
use crate::resource::{GrantedBehaviour, ResourceKind};
use crate::rule::{Judged, Leaf, Rule};

verus! {

/// How much of a badge a holder must hold.
#[derive(Clone, Copy, Debug, PartialEq, Eq, Structural)]
pub enum Holding {
    /// Any amount of it.
    Balance,
    /// Any instance of it.
    AnyInstance,
    /// One instance of it.
    Instance(u64),
}

/// What a sealed rule asks at one leaf.
#[derive(Clone, Copy, Debug, PartialEq, Eq)]
pub enum SealedLeaf {
    /// An approval: that the transaction presents a claim.
    Claim(Claim),
    /// A holding: that the party whose cell moves holds a badge.
    Held {
        /// The badge.
        badge: ResourceAddr,
        /// How much of it.
        holding: Holding,
    },
}

/// A rule as a record seals it.
pub type StoredRule = Rule<SealedLeaf>;

impl Leaf for SealedLeaf {
    open spec fn stage(self) -> Judged {
        match self {
            SealedLeaf::Claim(_) => Judged::AtAdmission,
            SealedLeaf::Held { .. } => Judged::AtMaterialization,
        }
    }

    /// An approval is answered before the transaction exists; a holding is
    /// answered before any body runs.
    fn judged(&self) -> (r: Judged) {
        match self {
            SealedLeaf::Claim(_) => Judged::AtAdmission,
            SealedLeaf::Held { .. } => Judged::AtMaterialization,
        }
    }
}

/// What a resource's entry for one behaviour demands of somebody else's
/// code.
#[derive(Debug, PartialEq, Eq)]
pub enum Demand {
    /// The entry cannot be read.
    Unreadable,
    /// Nothing: only the issuer's own code acts.
    Nothing,
    /// This rule.
    Asked(StoredRule),
}

/// What a resource's record says: who issued it, what it is, and what each
/// of its entries demands.
#[derive(Debug, PartialEq, Eq)]
pub struct ResourceMeta {
    /// The address that issued it.
    pub namespace: Address,
    /// What it is.
    pub kind: ResourceKind,
    /// What each entry demands, by the behaviour it is for.
    pub demands: Vec<(GrantedBehaviour, Demand)>,
}

/// What a run of entries first demands for a behaviour.
pub open spec fn first_demand(
    demands: Seq<(GrantedBehaviour, Demand)>,
    behaviour: GrantedBehaviour,
) -> Option<Demand>
    decreases demands.len(),
{
    if demands.len() == 0 {
        None
    } else if demands[0].0 == behaviour {
        Some(demands[0].1)
    } else {
        first_demand(demands.skip(1), behaviour)
    }
}

impl ResourceMeta {
    /// What the entry for a behaviour demands, where there is one.
    pub fn demanded(&self, behaviour: GrantedBehaviour) -> (r: Option<&Demand>)
        ensures
            match r {
                Some(demand) => first_demand(self.demands@, behaviour) == Some(*demand),
                None => first_demand(self.demands@, behaviour) is None,
            },
    {
        let mut i: usize = 0;
        assert(self.demands@.skip(0) =~= self.demands@);
        while i < self.demands.len()
            invariant
                i <= self.demands.len(),
                first_demand(self.demands@, behaviour) == first_demand(
                    self.demands@.skip(i as int),
                    behaviour,
                ),
            decreases self.demands.len() - i,
        {
            assert(self.demands@.skip(i as int)[0] == self.demands@[i as int]);
            assert(self.demands@.skip(i as int).skip(1) =~= self.demands@.skip(i as int + 1));
            if self.demands[i].0 == behaviour {
                return Some(&self.demands[i].1);
            }
            i = i + 1;
        }
        None
    }
}

} // verus!
