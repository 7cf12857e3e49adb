//! Publish-time judging, as the composed verdict of three gates.
//!
//! [`bounds`] asks what a signature may hold at all, [`declaration`] asks
//! whether the accesses one method declares are its to declare, and
//! [`abi`] asks whether a guest's export can be bound to them. Three
//! questions with three answers and nothing between them: each has its own
//! verdict type, and [`check_signature`] is the only thing that knows the
//! order.
//!
//! Every verdict is a pure function of the metadata, identical on every
//! node. What each of them says is stated beside them, read off the
//! metadata itself: [`measure`] of the bounds, [`faults`] of a declaration,
//! [`bindings`] of an export, [`coherence`] of the tables.
use vstd::prelude::*;

pub mod abi;
pub mod bindings;
pub mod bounds;
pub mod coherence;
pub mod declaration;
pub mod faults;
pub mod laws;
pub mod measure;
pub mod package;

pub use abi::{check_abi, AbiError};
pub use bounds::{check_signature_bounds, SignatureBoundsError};
pub use declaration::{
    check_declarations, founds_its_resource, seal_clauses, seals, DeclarationError,
};

pub use package::{check_metadata, CheckedMetadata, MetadataError};

use crate::signature::MethodSignature;

verus! {

/// Why a signature is refused at publish: the composed verdict of every
/// judgment the vocabulary makes of one.
#[derive(Clone, Debug, PartialEq, Eq)]
pub enum SignatureError {
    /// Past a structural bound.
    Bounds(SignatureBoundsError),
    /// A declaration rule refused it.
    Declaration(DeclarationError),
    /// The ABI binding refused it.
    Abi(AbiError),
}

/// The composed verdict on one signature: its structure, then its
/// declarations, then its binding.
pub open spec fn signature_verdict(signature: MethodSignature) -> Result<(), SignatureError> {
    match bounds::bounds_verdict(signature) {
        Err(refusal) => Err(SignatureError::Bounds(refusal)),
        Ok(_) => match declaration::declarations_verdict(signature) {
            Err(refusal) => Err(SignatureError::Declaration(refusal)),
            Ok(_) => match abi::abi_verdict(signature) {
                Err(refusal) => Err(SignatureError::Abi(refusal)),
                Ok(_) => Ok(()),
            },
        },
    }
}

/// A signature every publish-time judgment has passed.
///
/// The witness [`check_signature`] mints: a consumer holding one no longer
/// has to know the list of checks, and a fold that forgot one is
/// unrepresentable rather than an ordering nothing states.
#[derive(Clone, Copy, Debug)]
pub struct CheckedSignature<'a> {
    signature: &'a MethodSignature,
}

impl<'a> CheckedSignature<'a> {
    /// The signature the witness is about.
    pub closed spec fn judged(self) -> MethodSignature {
        *self.signature
    }

    /// What makes it a witness: the signature passed.
    #[verifier::type_invariant]
    spec fn passed(self) -> bool {
        signature_verdict(*self.signature) is Ok
    }

    /// Mint the witness without judging, for a signature already judged.
    pub(crate) fn trusted(signature: &'a MethodSignature) -> (r: Self)
        requires
            signature_verdict(*signature) is Ok,
        ensures
            r.judged() == *signature,
    {
        CheckedSignature { signature }
    }

    /// The signature itself.
    pub fn signature(&self) -> (r: &'a MethodSignature)
        ensures
            *r == self.judged(),
            signature_verdict(*r) is Ok,
    {
        proof {
            use_type_invariant(self);
        }
        self.signature
    }
}

/// Judge one signature as the publish gate does: the structural bounds,
/// the declaration rules, and the ABI binding.
///
/// # Errors
///
/// [`SignatureError`]; verdicts are deterministic and identical on every
/// node.
pub fn check_signature(signature: &MethodSignature) -> (r: Result<
    CheckedSignature<'_>,
    SignatureError,
>)
    ensures
        match r {
            Ok(checked) => signature_verdict(*signature) is Ok && checked.judged() == *signature,
            Err(refusal) => signature_verdict(*signature) == Err::<(), SignatureError>(refusal),
        },
{
    match check_signature_bounds(signature) {
        Ok(()) => {},
        Err(refusal) => {
            return Err(SignatureError::Bounds(refusal));
        },
    }
    match check_declarations(signature) {
        Ok(()) => {},
        Err(refusal) => {
            return Err(SignatureError::Declaration(refusal));
        },
    }
    match check_abi(signature) {
        Ok(()) => {},
        Err(refusal) => {
            return Err(SignatureError::Abi(refusal));
        },
    }
    Ok(CheckedSignature::trusted(signature))
}

} // verus!
