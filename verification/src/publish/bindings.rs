//! What each refusal of an ABI judgment says about the binding it refuses,
//! and the laws that tie the judging to it: a refusal is deserved, and what is
//! accepted deserves none.
use vstd::prelude::*;

use crate::dsl::Clause;
use crate::publish::abi::AbiError;
use crate::signature::{AbiParam, MethodSignature, ParamType};

verus! {

/// How many bindings of an export carry one parameter.
pub open spec fn times_carried(abi: Seq<AbiParam>, param: u32) -> nat {
    abi.filter(|binding: AbiParam| binding == AbiParam::Bucket(param)).len()
}

/// What a refusal says of one binding of an export.
pub open spec fn binding_at_fault(signature: MethodSignature, index: int, error: AbiError) -> bool {
    let effects = signature.effects@;
    let binding = signature.abi@[index];
    match error {
        AbiError::NoSuchClause { clause, declared, .. } => {
            &&& {
                ||| binding == AbiParam::Guard(clause)
                ||| binding matches AbiParam::Handle { clause: named, .. } && named == clause
            }
            &&& effects.len() <= clause
            &&& declared == crate::verdict::position(effects.len())
        },
        AbiError::NoSuchSite { clause, site, .. } => {
            &&& binding == (AbiParam::Handle { clause, site })
            &&& clause < effects.len()
            &&& effects[clause as int] is Effect
            &&& site > 0
        },
        AbiError::NotALoopedAccess { clause, site, .. } => {
            &&& binding == (AbiParam::Handle { clause, site })
            &&& clause < effects.len()
            &&& effects[clause as int] matches Clause::ForEach { body, .. }
            &&& site < body@.len() ==> !(body@[site as int] is Effect)
        },
        AbiError::NotACapability { clause, .. } => {
            &&& binding matches AbiParam::Handle { clause: named, .. } && named == clause
            &&& clause < effects.len()
            &&& effects[clause as int] is Requires || effects[clause as int] is Mints
        },
        AbiError::SiteBorrowedTwice { clause, site, .. } => {
            &&& binding == (AbiParam::Handle { clause, site })
            &&& exists|earlier: int|
                0 <= earlier < index && #[trigger] signature.abi@[earlier] == binding
        },
        AbiError::UnguardedClause { clause, .. } => {
            &&& binding == AbiParam::Guard(clause)
            &&& clause < effects.len()
            &&& crate::publish::faults::judgment_on(effects[clause as int]) is None
        },
        AbiError::NoSuchParam { param, declared, .. } => {
            &&& binding == AbiParam::Bucket(param)
            &&& signature.params@.len() <= param
            &&& declared == crate::verdict::position(signature.params@.len())
        },
        AbiError::NotABucket { param, kind, .. } => {
            &&& binding == AbiParam::Bucket(param)
            &&& param < signature.params@.len()
            &&& signature.params@[param as int] != ParamType::Bucket
            &&& signature.params@[param as int] != ParamType::NfBucket
            &&& crate::publish::faults::names_kind(kind@, signature.params@[param as int])
        },
        AbiError::BucketCarriedTwice { .. } => false,
    }
}

/// The binding a refusal of one binding names.
pub open spec fn binding_in(error: AbiError) -> u32 {
    match error {
        AbiError::NoSuchClause { position, .. } => position,
        AbiError::UnguardedClause { position, .. } => position,
        AbiError::NoSuchSite { position, .. } => position,
        AbiError::NotACapability { position, .. } => position,
        AbiError::NotALoopedAccess { position, .. } => position,
        AbiError::SiteBorrowedTwice { position, .. } => position,
        AbiError::NoSuchParam { position, .. } => position,
        AbiError::NotABucket { position, .. } => position,
        AbiError::BucketCarriedTwice { param, .. } => param,
    }
}

/// What a refusal says about the binding it refuses.
pub open spec fn at_fault(signature: MethodSignature, error: AbiError) -> bool {
    match error {
        AbiError::BucketCarriedTwice { param, carried } => {
            &&& param < signature.params@.len()
            &&& times_carried(signature.abi@, param) >= 2
            &&& carried == crate::verdict::position(times_carried(signature.abi@, param))
        },
        _ => exists|index: int|
            0 <= index < signature.abi@.len() && crate::verdict::position(index as nat)
                == binding_in(error) && #[trigger] binding_at_fault(signature, index, error),
    }
}

/// Carrying a parameter is being bound to it.
proof fn lemma_times_carried(abi: Seq<AbiParam>, param: u32)
    ensures
        crate::publish::abi::carried_by(abi, param as int) == times_carried(abi, param),
    decreases abi.len(),
{
    reveal(Seq::filter);
    if abi.len() > 0 {
        lemma_times_carried(abi.drop_last(), param);
    }
}

/// No binding carries a parameter past the last one it could name.
proof fn lemma_never_carried(abi: Seq<AbiParam>, param: int)
    requires
        param > u32::MAX,
    ensures
        crate::publish::abi::carried_by(abi, param) == 0,
    decreases abi.len(),
{
    if abi.len() > 0 {
        lemma_never_carried(abi.drop_last(), param);
    }
}

/// A binding is refused exactly where it is at fault.
proof fn lemma_binding_verdict(signature: MethodSignature, index: int)
    requires
        0 <= index < signature.abi@.len(),
    ensures
        crate::publish::abi::binding_verdict(signature, index) matches Err(error)
            ==> binding_at_fault(signature, index, error) && binding_in(error)
            == crate::verdict::position(index as nat) && !(error is BucketCarriedTwice),
        crate::publish::abi::binding_verdict(signature, index) is Ok ==> forall|error: AbiError|
            !#[trigger] binding_at_fault(signature, index, error),
{
    match signature.abi@[index] {
        AbiParam::Handle { clause, site } => {
            if crate::publish::abi::binding_verdict(signature, index) is Ok {
                assert forall|earlier: int| 0 <= earlier < index implies #[trigger] signature.abi@[earlier]
                    != signature.abi@[index] by {
                    assert(!crate::publish::abi::borrows(signature.abi@[earlier], clause, site));
                }
            } else if exists|i: int|
                0 <= i < index && crate::publish::abi::borrows(
                    #[trigger] signature.abi@[i],
                    clause,
                    site,
                ) {
                let i = choose|i: int|
                    0 <= i < index && crate::publish::abi::borrows(
                        #[trigger] signature.abi@[i],
                        clause,
                        site,
                    );
                assert(signature.abi@[i] == signature.abi@[index]);
            }
        },
        _ => {},
    }
}

/// A refusal is deserved: what it says of the binding is so.
pub proof fn law_a_refused_binding_is_at_fault(signature: MethodSignature)
    ensures
        crate::publish::abi::abi_verdict(signature) matches Err(error) ==> at_fault(
            signature,
            error,
        ),
{
    let bindings = crate::publish::abi::binding_verdicts(signature);
    let carried = crate::publish::abi::carried_verdicts(signature);
    if crate::verdict::first_refusal(bindings) is Err {
        let i = crate::publish::faults::lemma_refused_somewhere(bindings);
        lemma_binding_verdict(signature, i);
    } else if crate::verdict::first_refusal(carried) is Err {
        let i = crate::publish::faults::lemma_refused_somewhere(carried);
        if i <= u32::MAX {
            lemma_times_carried(signature.abi@, i as u32);
        } else {
            lemma_never_carried(signature.abi@, i);
        }
    }
}

/// What is accepted deserves no refusal: nothing any of them says is so.
pub proof fn law_an_accepted_binding_is_at_no_fault(signature: MethodSignature, error: AbiError)
    requires
        crate::publish::abi::abi_verdict(signature) is Ok,
    ensures
        !at_fault(signature, error),
{
    let bindings = crate::publish::abi::binding_verdicts(signature);
    let carried = crate::publish::abi::carried_verdicts(signature);
    crate::verdict::lemma_accepted(bindings);
    crate::verdict::lemma_accepted(carried);
    assert forall|index: int| 0 <= index < signature.abi@.len() implies !(
    #[trigger] binding_at_fault(signature, index, error)) by {
        assert(bindings[index] is Ok);
        lemma_binding_verdict(signature, index);
    }
    match error {
        AbiError::BucketCarriedTwice { param, .. } => {
            lemma_times_carried(signature.abi@, param);
            if param < signature.params@.len() {
                assert(carried[param as int] is Ok);
            }
        },
        _ => {},
    }
}

/// An export that binds nothing but parameters carrying value, fungible or
/// not, and none of them twice, is accepted.
pub proof fn law_an_export_of_edges_is_accepted(signature: MethodSignature)
    requires
        forall|i: int|
            0 <= i < signature.abi@.len() ==> (#[trigger] signature.abi@[i] matches AbiParam::Bucket(
                param,
            ) && param < signature.params@.len() && (signature.params@[param as int]
                == ParamType::Bucket || signature.params@[param as int] == ParamType::NfBucket)),
        forall|i: int, j: int|
            0 <= i < j < signature.abi@.len() ==> #[trigger] signature.abi@[i]
                != #[trigger] signature.abi@[j],
    ensures
        crate::publish::abi::abi_verdict(signature) is Ok,
{
    let bindings = crate::publish::abi::binding_verdicts(signature);
    let carried = crate::publish::abi::carried_verdicts(signature);
    assert forall|i: int| 0 <= i < bindings.len() implies #[trigger] bindings[i] is Ok by {
        assert(signature.abi@[i] is Bucket);
    }
    crate::verdict::lemma_accepted(bindings);
    assert forall|i: int| 0 <= i < carried.len() implies #[trigger] carried[i] is Ok by {
        lemma_distinct_once(signature.abi@, i);
    }
    crate::verdict::lemma_accepted(carried);
}

/// No parameter is carried twice where no two bindings are one.
proof fn lemma_distinct_once(abi: Seq<AbiParam>, param: int)
    requires
        forall|i: int, j: int|
            0 <= i < j < abi.len() ==> #[trigger] abi[i] != #[trigger] abi[j],
    ensures
        crate::publish::abi::carried_by(abi, param) <= 1,
        crate::publish::abi::carried_by(abi, param) > 0 ==> exists|i: int|
            0 <= i < abi.len() && (#[trigger] abi[i] matches AbiParam::Bucket(named) && named
                == param),
    decreases abi.len(),
{
    if abi.len() > 0 {
        let before = abi.drop_last();
        assert forall|i: int, j: int| 0 <= i < j < before.len() implies #[trigger] before[i]
            != #[trigger] before[j] by {
            assert(abi[i] != abi[j]);
        }
        lemma_distinct_once(before, param);
        if crate::publish::abi::carried_by(before, param) > 0 {
            let i = choose|i: int|
                0 <= i < before.len() && (#[trigger] before[i] matches AbiParam::Bucket(named)
                    && named == param);
            assert(abi[i] == before[i]);
            assert(abi[i] != abi[abi.len() - 1]);
        } else {
            assert(abi[abi.len() - 1] == abi.last());
        }
    }
}

} // verus!
