//! The slots the protocol itself derives keys for.
use vstd::prelude::*;

verus! {

/// A fungible balance, keyed by the resource it holds.
pub const VAULT: u16 = 1;

/// The creation-fixed configuration leaf.
pub const CONFIG: u16 = 2;

/// The stored authority cell.
pub const AUTH: u16 = 3;

/// A resource's record under its issuer.
pub const RESOURCE: u16 = 4;

/// A resource's instances, keyed by that resource.
pub const NF_VAULT: u16 = 5;

/// An instance's data under its issuer.
pub const INSTANCE: u16 = 6;

/// A holder's halt flag for one resource.
pub const HALT: u16 = 7;

/// The cell a publisher's package sits in, in the kernel's own band.
pub const PACKAGE_SLOT: u16 = 0xFFFE;

/// The cell that makes an intent once-only, in the kernel's own band.
pub const NULLIFIER_SLOT: u16 = 0xFFFD;

/// The cell that marks a transaction committed, in the kernel's own band.
pub const COMMITTED_TX_SLOT: u16 = 0xFFFC;

/// The cell a crossing's claim answers in, in the kernel's own band.
pub const CROSSING_CLAIM_SLOT: u16 = 0xFFFB;

/// The cell a crossing's refusal answers in, in the kernel's own band.
pub const CROSSING_DECLINE_SLOT: u16 = 0xFFFA;

/// The cell a crossing's answer is owed from, in the kernel's own band.
pub const CROSSING_OBLIGATION_SLOT: u16 = 0xFFF9;

/// The cell value waits in while it crosses, in the kernel's own band.
pub const ESCROW_RECORD_SLOT: u16 = 0xFFF8;

} // verus!
