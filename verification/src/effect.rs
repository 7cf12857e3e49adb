//! What an access does to a leaf, and what a leaf is required to be.
use vstd::prelude::*;

use crate::address::Address;
use crate::types::{CollectionId, SubstateKey};

verus! {

/// Which way value moves under an access.
#[derive(Clone, Copy, Debug, PartialEq, Eq, Structural)]
pub enum Moves {
    /// Into the cell only.
    In,
    /// Out of the cell only.
    Out,
    /// Either way.
    Both,
}

/// What must be true of a leaf.
#[derive(Clone, Copy, Debug, PartialEq, Eq, Structural)]
pub enum Presence {
    /// It must not be there.
    Absent,
    /// It must be there.
    Present,
    /// Nothing is required of it.
    Either,
}

impl Presence {
    /// Whether one leaf can meet two requirements at once.
    pub open spec fn meets(self, other: Presence) -> bool {
        self == Presence::Either || other == Presence::Either || self == other
    }

    /// What two requirements on one leaf come to together, where one leaf
    /// can meet both.
    pub fn meet(self, other: Presence) -> (r: Option<Presence>)
        ensures
            r is Some == self.meets(other),
            r matches Some(met) ==> met == (if self == Presence::Either {
                other
            } else {
                self
            }),
    {
        if self == Presence::Either {
            Some(other)
        } else if other == Presence::Either || self == other {
            Some(self)
        } else {
            None
        }
    }
}

/// What an evaluated access reaches.
#[derive(Clone, Copy, Debug, Eq)]
pub enum EffectTarget {
    /// One leaf.
    Point(SubstateKey),
    /// One entry of a collection.
    Entry {
        /// The collection's owner.
        owner: Address,
        /// The collection.
        collection: CollectionId,
        /// Where the entry sits in it.
        order: u128,
    },
    /// An interval of a collection.
    Range {
        /// The collection's owner.
        owner: Address,
        /// The collection.
        collection: CollectionId,
        /// The first order key.
        lo: u128,
        /// The last order key, itself within the interval.
        hi: u128,
        /// The most entries it may touch.
        cap: u32,
    },
}

impl PartialEq for EffectTarget {
    fn eq(&self, other: &Self) -> (r: bool) {
        match (self, other) {
            (EffectTarget::Point(left), EffectTarget::Point(right)) => left.same(right),
            (
                EffectTarget::Entry { owner, collection, order },
                EffectTarget::Entry { owner: host, collection: held, order: at },
            ) => *owner == *host && collection.same(held) && *order == *at,
            (
                EffectTarget::Range { owner, collection, lo, hi, cap },
                EffectTarget::Range { owner: host, collection: held, lo: low, hi: high, cap: most },
            ) => *owner == *host && collection.same(held) && *lo == *low && *hi == *high && *cap
                == *most,
            _ => false,
        }
    }
}

impl vstd::std_specs::cmp::PartialEqSpecImpl for EffectTarget {
    open spec fn obeys_eq_spec() -> bool {
        true
    }

    open spec fn eq_spec(&self, other: &Self) -> bool {
        *self == *other
    }
}

/// How an evaluated access reaches its target.
#[derive(Clone, Copy, Debug, PartialEq, Eq, Structural)]
pub enum Mode {
    /// Reading it.
    Read,
    /// Moving value through it, in any order with other movements.
    Delta {
        /// Which way.
        moves: Moves,
    },
    /// Setting an amount of it aside.
    Reserve(u128),
    /// Rewriting it.
    Write {
        /// Which way value moves under the rewrite.
        moves: Moves,
    },
}

/// The kinds of mode that conflict, or do not, on one key.
#[derive(Clone, Copy, Debug, PartialEq, Eq, Structural)]
pub enum ModeKind {
    /// A fresh read.
    Read,
    /// A movement that may go either way, or out.
    Delta,
    /// A movement in only.
    Credit,
    /// An amount set aside.
    Reserve,
    /// A rewrite.
    Write,
}

impl Mode {
    /// The kind the mode conflicts as.
    pub open spec fn conflicts_as(self) -> ModeKind {
        match self {
            Mode::Read => ModeKind::Read,
            Mode::Delta { moves: Moves::In } => ModeKind::Credit,
            Mode::Delta { .. } => ModeKind::Delta,
            Mode::Reserve(_) => ModeKind::Reserve,
            Mode::Write { .. } => ModeKind::Write,
        }
    }

    /// The kind the mode conflicts as.
    pub fn kind(self) -> (r: ModeKind)
        ensures
            r == self.conflicts_as(),
    {
        match self {
            Mode::Read => ModeKind::Read,
            Mode::Delta { moves } => match moves {
                Moves::In => ModeKind::Credit,
                _ => ModeKind::Delta,
            },
            Mode::Reserve(_) => ModeKind::Reserve,
            Mode::Write { .. } => ModeKind::Write,
        }
    }
}

/// One evaluated access.
#[derive(Clone, Copy, Debug, PartialEq, Eq)]
pub struct Effect {
    /// What it reaches.
    pub target: EffectTarget,
    /// How.
    pub mode: Mode,
}

} // verus!
