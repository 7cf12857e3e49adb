//! The ABI gate: whether a signature's export binding can be honoured.
//!
//! What a guest's exported function takes, against what the signature
//! says each parameter is. Every verdict is a pure function of the
//! signature, so it is the same wherever it is reached.
use vstd::prelude::*;

use crate::dsl::Clause;
use crate::signature::{AbiParam, MethodSignature};
use crate::verdict::position_of;

verus! {

/// Why a signature's ABI binding cannot be honoured.
#[derive(Clone, Debug, PartialEq, Eq)]
pub enum AbiError {
    /// A binding naming an effect clause the signature does not declare.
    NoSuchClause {
        /// The ABI parameter position.
        position: u32,
        /// The clause it names.
        clause: u32,
        /// How many clauses the signature declares.
        declared: u32,
    },
    /// A guard binding naming a clause that carries no guard. Its verdict
    /// is the constant true, which no export needs told.
    UnguardedClause {
        /// The ABI parameter position.
        position: u32,
        /// The clause it names.
        clause: u32,
    },
    /// A handle binding naming a site an access does not have: one access
    /// is one site, numbered zero.
    NoSuchSite {
        /// The ABI parameter position.
        position: u32,
        /// The clause it names.
        clause: u32,
        /// The site it named within that clause.
        site: u32,
    },
    /// A handle binding naming a clause that declares no capability.
    NotACapability {
        /// The ABI parameter position.
        position: u32,
        /// The clause it names.
        clause: u32,
    },
    /// A handle binding naming a body position that declares no access.
    NotALoopedAccess {
        /// The ABI parameter position.
        position: u32,
        /// The `for-each` clause it names.
        clause: u32,
        /// The body position it names.
        site: u32,
    },
    /// One declared site borrowed by two handle parameters. What a
    /// declaration bought is one capability, and a body holding it twice
    /// would be asking for its budgets twice.
    SiteBorrowedTwice {
        /// The ABI parameter position.
        position: u32,
        /// The clause it names.
        clause: u32,
        /// The site within that clause.
        site: u32,
    },
    /// A bucket binding naming a parameter the signature does not declare.
    NoSuchParam {
        /// The ABI parameter position.
        position: u32,
        /// The parameter it names.
        param: u32,
        /// How many parameters the signature declares.
        declared: u32,
    },
    /// A bucket binding naming a parameter that is not a bucket.
    NotABucket {
        /// The ABI parameter position.
        position: u32,
        /// The parameter it names.
        param: u32,
        /// What that parameter actually is.
        kind: &'static str,
    },
    /// One bucket parameter carried by more than one ABI parameter. A
    /// bucket carried by none is well-formed: a method that forwards its
    /// funds never reads the amount itself.
    BucketCarriedTwice {
        /// The parameter.
        param: u32,
        /// How many ABI parameters name it.
        carried: u32,
    },
}

/// The verdict on whether a handle binding names a site something
/// declares: an access is one site of its own, a loop's sites are the
/// accesses among its body's positions, and nothing else has any.
pub open spec fn site_verdict(
    signature: MethodSignature,
    position: u32,
    clause: u32,
    site: u32,
) -> Result<(), AbiError> {
    let effects = signature.effects@;
    if clause >= effects.len() {
        Err(
            AbiError::NoSuchClause {
                position,
                clause,
                declared: crate::verdict::position(effects.len()),
            },
        )
    } else {
        match effects[clause as int] {
            Clause::Effect { .. } => if site == 0 {
                Ok(())
            } else {
                Err(AbiError::NoSuchSite { position, clause, site })
            },
            Clause::ForEach { body, .. } => if site < body@.len() && body@[site as int] is Effect {
                Ok(())
            } else {
                Err(AbiError::NotALoopedAccess { position, clause, site })
            },
            _ => Err(AbiError::NotACapability { position, clause }),
        }
    }
}

/// Whether a binding borrows this site of this clause.
pub open spec fn borrows(binding: AbiParam, clause: u32, site: u32) -> bool {
    binding matches AbiParam::Handle { clause: named, site: at } && named == clause && at == site
}

/// The verdict on the binding at `index`, beside the ones before it.
pub open spec fn binding_verdict(signature: MethodSignature, index: int) -> Result<(), AbiError> {
    let position = crate::verdict::position(index as nat);
    match signature.abi@[index] {
        AbiParam::Handle { clause, site } => crate::verdict::followed_by(
            site_verdict(signature, position, clause, site),
            if exists|i: int| 0 <= i < index && borrows(#[trigger] signature.abi@[i], clause, site) {
                Err(AbiError::SiteBorrowedTwice { position, clause, site })
            } else {
                Ok(())
            },
        ),
        AbiParam::Guard(clause) => if clause >= signature.effects@.len() {
            Err(
                AbiError::NoSuchClause {
                    position,
                    clause,
                    declared: crate::verdict::position(signature.effects@.len()),
                },
            )
        } else if signature.effects@[clause as int].condition() is None {
            Err(AbiError::UnguardedClause { position, clause })
        } else {
            Ok(())
        },
        AbiParam::Bucket(param) => if param >= signature.params@.len() {
            Err(
                AbiError::NoSuchParam {
                    position,
                    param,
                    declared: crate::verdict::position(signature.params@.len()),
                },
            )
        } else if !signature.params@[param as int].carries_value() {
            Err(
                AbiError::NotABucket {
                    position,
                    param,
                    kind: signature.params@[param as int].label(),
                },
            )
        } else {
            Ok(())
        },
        AbiParam::Derived(_) => Ok(()),
    }
}

/// The verdicts on a signature's bindings, in order.
pub open spec fn binding_verdicts(signature: MethodSignature) -> Seq<Result<(), AbiError>> {
    Seq::new(signature.abi@.len(), |i: int| binding_verdict(signature, i))
}

/// How many bindings of a run carry the bucket at `param`.
pub open spec fn carried_by(abi: Seq<AbiParam>, param: int) -> nat
    decreases abi.len(),
{
    if abi.len() == 0 {
        0
    } else {
        carried_by(abi.drop_last(), param) + if abi.last() matches AbiParam::Bucket(named) && named
            == param {
            1nat
        } else {
            0nat
        }
    }
}

/// The verdict on how often the bucket at `param` is carried.
pub open spec fn carried_verdict(signature: MethodSignature, param: int) -> Result<(), AbiError> {
    let carried = carried_by(signature.abi@, param);
    if carried > 1 {
        Err(
            AbiError::BucketCarriedTwice {
                param: crate::verdict::position(param as nat),
                carried: crate::verdict::position(carried),
            },
        )
    } else {
        Ok(())
    }
}

/// The verdicts on how often each parameter is carried, in order.
pub open spec fn carried_verdicts(signature: MethodSignature) -> Seq<Result<(), AbiError>> {
    Seq::new(signature.params@.len(), |i: int| carried_verdict(signature, i))
}

/// The verdict on a signature's ABI binding: every binding in order, and
/// then every parameter's bucket carried once at most.
pub open spec fn abi_verdict(signature: MethodSignature) -> Result<(), AbiError> {
    crate::verdict::followed_by(
        crate::verdict::first_refusal(binding_verdicts(signature)),
        crate::verdict::first_refusal(carried_verdicts(signature)),
    )
}

/// Judge that a handle binding names a site something declares.
///
/// A plain clause is one site of its own, named at site zero; anything
/// past that names a site of a `for-each` body. Each way of getting it
/// wrong earns its own refusal, because they send an author to different
/// places.
pub fn declares_a_site(
    signature: &MethodSignature,
    position: u32,
    clause: u32,
    site: u32,
) -> (r: Result<(), AbiError>)
    ensures
        r == site_verdict(*signature, position, clause, site),
{
    if clause as usize >= signature.effects.len() {
        return Err(
            AbiError::NoSuchClause {
                position,
                clause,
                declared: position_of(signature.effects.len()),
            },
        );
    }
    match &signature.effects[clause as usize] {
        Clause::Effect { .. } => if site == 0 {
            Ok(())
        } else {
            Err(AbiError::NoSuchSite { position, clause, site })
        },
        // A loop's sites are its body's positions, and only the ones
        // declaring an access back a handle.
        Clause::ForEach { body, .. } => {
            let backed = if (site as usize) < body.len() {
                match &body[site as usize] {
                    Clause::Effect { .. } => true,
                    _ => false,
                }
            } else {
                false
            };
            if backed {
                Ok(())
            } else {
                Err(AbiError::NotALoopedAccess { position, clause, site })
            }
        },
        _ => Err(AbiError::NotACapability { position, clause }),
    }
}

/// Whether one of the first `count` bindings borrows this site.
fn borrowed_before(abi: &Vec<AbiParam>, count: usize, clause: u32, site: u32) -> (r: bool)
    requires
        count <= abi@.len(),
    ensures
        r == exists|i: int| 0 <= i < count && borrows(#[trigger] abi@[i], clause, site),
{
    let mut i: usize = 0;
    while i < count
        invariant
            i <= count,
            count <= abi@.len(),
            forall|j: int| 0 <= j < i ==> !borrows(#[trigger] abi@[j], clause, site),
        decreases count - i,
    {
        let held = match &abi[i] {
            AbiParam::Handle { clause: named, site: at } => *named == clause && *at == site,
            _ => false,
        };
        if held {
            assert(borrows(abi@[i as int], clause, site));
            return true;
        }
        i = i + 1;
    }
    false
}

/// Judge the binding at `index`, beside the ones before it.
fn check_binding(signature: &MethodSignature, index: usize) -> (r: Result<(), AbiError>)
    requires
        index < signature.abi@.len(),
    ensures
        r == binding_verdict(*signature, index as int),
{
    let position = position_of(index);
    match &signature.abi[index] {
        AbiParam::Handle { clause, site } => {
            match declares_a_site(signature, position, *clause, *site) {
                Ok(()) => {},
                Err(refusal) => {
                    return Err(refusal);
                },
            }
            if borrowed_before(&signature.abi, index, *clause, *site) {
                return Err(
                    AbiError::SiteBorrowedTwice { position, clause: *clause, site: *site },
                );
            }
            Ok(())
        },
        AbiParam::Guard(clause) => {
            if *clause as usize >= signature.effects.len() {
                return Err(
                    AbiError::NoSuchClause {
                        position,
                        clause: *clause,
                        declared: position_of(signature.effects.len()),
                    },
                );
            }
            match signature.effects[*clause as usize].guard() {
                Some(_) => Ok(()),
                None => Err(AbiError::UnguardedClause { position, clause: *clause }),
            }
        },
        AbiParam::Bucket(param) => {
            if *param as usize >= signature.params.len() {
                return Err(
                    AbiError::NoSuchParam {
                        position,
                        param: *param,
                        declared: position_of(signature.params.len()),
                    },
                );
            }
            let kind = &signature.params[*param as usize];
            if kind.is_edge() {
                Ok(())
            } else {
                Err(AbiError::NotABucket { position, param: *param, kind: kind.name() })
            }
        },
        // A derived binding is an expression over the same inputs the
        // effect clauses read, so its references are bounded by the same
        // evaluation; repeating that walk here would be a second opinion
        // on it.
        AbiParam::Derived(_) => Ok(()),
    }
}

/// How many bindings carry the bucket at `param`.
fn count_carried(abi: &Vec<AbiParam>, param: usize) -> (r: usize)
    ensures
        r == carried_by(abi@, param as int),
{
    let mut count: usize = 0;
    let mut i: usize = 0;
    assert(abi@.take(0) =~= Seq::empty());
    while i < abi.len()
        invariant
            i <= abi.len(),
            count <= i,
            count == carried_by(abi@.take(i as int), param as int),
        decreases abi.len() - i,
    {
        proof {
            assert(abi@.take(i as int + 1).drop_last() =~= abi@.take(i as int));
            assert(abi@.take(i as int + 1).last() == abi@[i as int]);
        }
        match &abi[i] {
            AbiParam::Bucket(named) => {
                if *named as usize == param {
                    count = count + 1;
                }
            },
            _ => {},
        }
        i = i + 1;
    }
    assert(abi@.take(i as int) =~= abi@);
    count
}

/// Judge a signature's ABI binding against the declaration it is a
/// binding for.
///
/// A binding says where each of the guest's arguments comes from, and a
/// caller that cannot resolve one cannot invoke the method at all, so an
/// unresolvable binding is a package that publishes and then traps for
/// everyone.
///
/// # Errors
///
/// Any [`AbiError`]: the first binding refused, and then the first
/// parameter whose bucket is carried twice.
pub fn check_abi(signature: &MethodSignature) -> (r: Result<(), AbiError>)
    ensures
        r == abi_verdict(*signature),
{
    let ghost bindings = binding_verdicts(*signature);
    let ghost buckets = carried_verdicts(*signature);
    proof {
        crate::verdict::lemma_all(bindings);
        crate::verdict::lemma_all(buckets);
    }
    let mut index: usize = 0;
    while index < signature.abi.len()
        invariant
            index <= signature.abi.len(),
            bindings == binding_verdicts(*signature),
            crate::verdict::first_refusal(bindings.take(index as int)) is Ok,
        decreases signature.abi.len() - index,
    {
        proof {
            crate::verdict::lemma_one_more(bindings, index as int);
        }
        match check_binding(signature, index) {
            Ok(()) => {},
            Err(refusal) => {
                return Err(refusal);
            },
        }
        index = index + 1;
    }
    proof {
        crate::verdict::lemma_all(bindings);
    }
    let mut param: usize = 0;
    while param < signature.params.len()
        invariant
            param <= signature.params.len(),
            buckets == carried_verdicts(*signature),
            abi_verdict(*signature) == crate::verdict::first_refusal(buckets),
            crate::verdict::first_refusal(buckets.take(param as int)) is Ok,
        decreases signature.params.len() - param,
    {
        proof {
            crate::verdict::lemma_one_more(buckets, param as int);
        }
        let carried = count_carried(&signature.abi, param);
        if carried > 1 {
            return Err(
                AbiError::BucketCarriedTwice {
                    param: position_of(param),
                    carried: position_of(carried),
                },
            );
        }
        param = param + 1;
    }
    proof {
        crate::verdict::lemma_all(buckets);
    }
    Ok(())
}

} // verus!
