//! A method's effect signature: everything it declares.
use vstd::prelude::*;

use crate::dsl::{Clause, Expr};
use crate::resource::{GrantedBehaviour, GrantsExpr, ResourceKind};

verus! {

/// The most resources one method may issue.
pub const MAX_ISSUANCES_PER_SIGNATURE: usize = 8;

/// The most claims one method may mint.
pub const MAX_MINTS_PER_SIGNATURE: usize = 4;

/// How completely a method returns.
#[derive(Clone, Copy, Debug, PartialEq, Eq, Structural)]
pub enum Totality {
    /// It may decline, and it may trap.
    Fallible,
    /// It never declines.
    Infallible,
    /// It admits every state, and nothing it does can stop.
    Total,
}

impl Totality {
    /// Whether a caller has nothing to hear back.
    pub fn is_total(self) -> (r: bool)
        ensures
            r == (self == Totality::Total),
    {
        match self {
            Totality::Total => true,
            _ => false,
        }
    }
}

/// What a declared parameter is.
#[derive(Clone, Copy, Debug, PartialEq, Eq, Structural)]
pub enum ParamType {
    /// A 64-bit number.
    U64,
    /// A 128-bit number.
    U128,
    /// A resource's address.
    Resource,
    /// A byte string of exactly this width.
    BytesExact(u32),
    /// An edge carrying an amount.
    Bucket,
    /// An edge carrying instances.
    NfBucket,
}

impl ParamType {
    /// Whether the parameter carries value.
    pub open spec fn carries_value(self) -> bool {
        self is Bucket || self is NfBucket
    }

    /// What the parameter is called.
    pub open spec fn label(self) -> &'static str {
        match self {
            ParamType::U64 => "u64",
            ParamType::U128 => "u128",
            ParamType::Resource => "resource",
            ParamType::BytesExact(_) => "bytes",
            ParamType::Bucket => "bucket",
            ParamType::NfBucket => "nf-bucket",
        }
    }

    /// Whether the parameter carries value.
    pub fn is_edge(&self) -> (r: bool)
        ensures
            r == self.carries_value(),
    {
        match self {
            ParamType::Bucket => true,
            ParamType::NfBucket => true,
            _ => false,
        }
    }

    /// What the parameter is called.
    pub fn name(&self) -> (r: &'static str)
        ensures
            r == self.label(),
    {
        match self {
            ParamType::U64 => "u64",
            ParamType::U128 => "u128",
            ParamType::Resource => "resource",
            ParamType::BytesExact(_) => "bytes",
            ParamType::Bucket => "bucket",
            ParamType::NfBucket => "nf-bucket",
        }
    }
}

/// Where one of an export's arguments comes from.
#[derive(Debug, PartialEq, Eq)]
pub enum AbiParam {
    /// The capability a site of a clause declares.
    Handle {
        /// The clause, by its place among the top-level clauses.
        clause: u32,
        /// The site within it.
        site: u32,
    },
    /// Whether a clause was declared at all.
    Guard(u32),
    /// The edge at a parameter.
    Bucket(u32),
    /// A value derived from the call's inputs.
    Derived(Expr),
}

/// Which way a method changes a resource's supply.
#[derive(Clone, Copy, Debug, PartialEq, Eq, Structural)]
pub enum Issued {
    /// It mints.
    Minted,
    /// It burns.
    Burned,
    /// It may do either.
    Either,
}

impl Issued {
    /// The entries the direction answers to, in the order they are asked.
    pub open spec fn entries(self) -> Seq<GrantedBehaviour> {
        match self {
            Issued::Minted => seq![GrantedBehaviour::Mint],
            Issued::Burned => seq![GrantedBehaviour::Burn],
            Issued::Either => seq![GrantedBehaviour::Mint, GrantedBehaviour::Burn],
        }
    }

    /// The entries the direction answers to, in the order they are asked.
    pub fn behaviours(self) -> (r: Vec<GrantedBehaviour>)
        ensures
            r@ == self.entries(),
    {
        match self {
            Issued::Minted => vec![GrantedBehaviour::Mint],
            Issued::Burned => vec![GrantedBehaviour::Burn],
            Issued::Either => vec![GrantedBehaviour::Mint, GrantedBehaviour::Burn],
        }
    }
}

/// One resource a method may change the supply of.
#[derive(Debug, PartialEq, Eq)]
pub struct Issuance {
    /// The name the resource is declared under.
    pub mark: Vec<u8>,
    /// What the resource is.
    pub kind: ResourceKind,
    /// Which way its supply changes.
    pub direction: Issued,
    /// The entries its address folds.
    pub grants: GrantsExpr,
}

/// Everything a method declares.
#[derive(Debug, PartialEq, Eq)]
pub struct MethodSignature {
    /// How completely it returns.
    pub totality: Totality,
    /// The resources it issues, in its body's own order.
    pub issues: Vec<Issuance>,
    /// The parameters it destroys.
    pub destroys: Vec<u32>,
    /// Its declared parameters.
    pub params: Vec<ParamType>,
    /// What each edge it yields carries.
    pub outputs: Vec<Expr>,
    /// Whether it answers its caller.
    pub answers: bool,
    /// The resource each parameter carries, where it says.
    pub denominations: Vec<Option<Expr>>,
    /// Its clauses.
    pub effects: Vec<Clause>,
    /// Where each of its export's arguments comes from.
    pub abi: Vec<AbiParam>,
    /// The events it may emit, by their place in the package's table.
    pub emits: Vec<u32>,
    /// The most bytes its events come to.
    pub event_bytes: u32,
}

impl Default for MethodSignature {
    fn default() -> (r: MethodSignature)
        ensures
            r.totality == Totality::Fallible,
            r.issues@.len() == 0,
            r.destroys@.len() == 0,
            r.params@.len() == 0,
            r.outputs@.len() == 0,
            !r.answers,
            r.denominations@.len() == 0,
            r.effects@.len() == 0,
            r.abi@.len() == 0,
            r.emits@.len() == 0,
            r.event_bytes == 0,
    {
        MethodSignature {
            totality: Totality::Fallible,
            issues: Vec::new(),
            destroys: Vec::new(),
            params: Vec::new(),
            outputs: Vec::new(),
            answers: false,
            denominations: Vec::new(),
            effects: Vec::new(),
            abi: Vec::new(),
            emits: Vec::new(),
            event_bytes: 0,
        }
    }
}

} // verus!
