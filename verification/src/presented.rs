//! What a proof carries.
//!
//! An authority verdict is a comparison, and this is the thing compared:
//! the claim a gate mints and a rule names. One subject, and, where the
//! subject is a non-fungible badge, which instance of it: a claim that
//! could not tell two holders of one badge apart would admit either
//! wherever it named one.
use vstd::prelude::*;

use crate::address::{Address, CallTarget, ResourceAddr};
use crate::types::Value;

verus! {

/// A claim a proof carries and a rule names.
///
/// Equality is the whole of judgment: two claims are the same claim
/// exactly when they name the same subject and the same instance of it.
#[derive(Clone, Copy, Debug, Eq)]
pub struct Presented {
    /// Who or what the claim is about.
    pub subject: Address,
    /// Which instance of it, where the subject is a non-fungible badge and
    /// the claim is about one instance rather than any.
    pub instance: Option<u64>,
}

/// A claim, where it is one a rule names.
pub type Claim = Presented;

impl PartialEq for Presented {
    fn eq(&self, other: &Self) -> (r: bool) {
        self.subject == other.subject && self.instance == other.instance
    }
}

impl vstd::std_specs::cmp::PartialEqSpecImpl for Presented {
    open spec fn obeys_eq_spec() -> bool {
        true
    }

    open spec fn eq_spec(&self, other: &Self) -> bool {
        *self == *other
    }
}

impl Presented {
    /// The claim about `subject` as a whole.
    pub open spec fn about(subject: Address) -> Presented {
        Presented { subject, instance: None }
    }

    /// The claim one address makes, where it makes one: where it is a
    /// resource's or can be called.
    pub open spec fn made_by_address(address: Address) -> Option<Presented> {
        if ResourceAddr::named_by(address) is Some || CallTarget::named_by(address) is Some {
            Some(Presented::about(address))
        } else {
            None
        }
    }

    /// The claim a value makes, where it makes one: an address the claim
    /// that address makes, and a resource beside a number the claim on
    /// that instance of it.
    pub open spec fn made_by(value: Value) -> Option<Presented> {
        match value {
            Value::Address(address) => Presented::made_by_address(address),
            Value::Tuple(fields) => if fields@.len() == 2 {
                match (fields@[0], fields@[1]) {
                    (Value::Address(resource), Value::U64(id)) => if ResourceAddr::named_by(
                        resource,
                    ) is Some {
                        Some(Presented { subject: resource, instance: Some(id) })
                    } else {
                        None
                    },
                    _ => None,
                }
            } else {
                None
            },
            _ => None,
        }
    }

    /// A claim about `subject` as a whole: an address acting as itself, or
    /// a badge held in any amount.
    pub fn of_subject(subject: Address) -> (r: Self)
        ensures
            r == Presented::about(subject),
    {
        Presented { subject, instance: None }
    }

    /// A claim about one named instance of a non-fungible badge.
    pub fn of_instance(badge: ResourceAddr, id: u64) -> (r: Self)
        ensures
            r == (Presented { subject: badge.as_address(), instance: Some(id) }),
    {
        Presented { subject: badge.address(), instance: Some(id) }
    }

    /// The badge this claim names, where its subject is one.
    pub fn badge(&self) -> (r: Option<ResourceAddr>)
        ensures
            r == ResourceAddr::named_by(self.subject),
    {
        ResourceAddr::try_from(self.subject)
    }

    /// The callable address this claim names, where its subject is one.
    pub fn callable(&self) -> (r: Option<CallTarget>)
        ensures
            r == CallTarget::named_by(self.subject),
    {
        CallTarget::try_from(self.subject)
    }

    /// The claim a declared expression's value makes, or nothing for a
    /// value that names no claim at all.
    ///
    /// An address that is neither callable nor a resource names no claim:
    /// no gate mints one, so a rule naming one could never be satisfied,
    /// and refusing it at the naming is the honest spelling of that.
    pub fn of(value: &Value) -> (r: Option<Self>)
        ensures
            r == Presented::made_by(*value),
    {
        match value {
            Value::Address(address) => Presented::of_address(*address),
            Value::Tuple(fields) => {
                if fields.len() != 2 {
                    return None;
                }
                match (&fields[0], &fields[1]) {
                    (Value::Address(resource), Value::U64(id)) => match ResourceAddr::try_from(
                        *resource,
                    ) {
                        Some(badge) => Some(Presented::of_instance(badge, *id)),
                        None => None,
                    },
                    _ => None,
                }
            },
            _ => None,
        }
    }

    /// The claim one address makes, where it makes one.
    pub fn of_address(address: Address) -> (r: Option<Self>)
        ensures
            r == Presented::made_by_address(address),
    {
        if ResourceAddr::try_from(address).is_some() || CallTarget::try_from(address).is_some() {
            Some(Presented::of_subject(address))
        } else {
            None
        }
    }

    /// The address the claim is about.
    pub fn address(&self) -> (r: Address)
        ensures
            r == self.subject,
    {
        self.subject
    }
}

/// What a subject is, is its class's answer: a claim an address makes is
/// on a badge or on something that can be called, never on both, and it
/// carries that address and nothing else.
pub proof fn law_a_claim_names_one_thing(address: Address)
    ensures
        Presented::made_by(Value::Address(address)) matches Some(claim) ==> claim
            == Presented::about(address) && (ResourceAddr::named_by(claim.subject) is Some
            != CallTarget::named_by(claim.subject) is Some),
{
}

/// Two claims on instances of one badge are one claim exactly where they
/// name one instance, and neither is the claim on the badge as a whole.
pub proof fn law_instances_are_told_apart(badge: ResourceAddr, id: u64, other: u64)
    ensures
        ({
            let one = Presented { subject: badge.as_address(), instance: Some(id) };
            let two = Presented { subject: badge.as_address(), instance: Some(other) };
            &&& (one == two) == (id == other)
            &&& one != Presented::about(badge.as_address())
        }),
{
}

} // verus!
