//! The declaration gate: the shape rules a method's declared accesses,
//! conditions and issuances are held to.
//!
//! The largest of the three gates and the one an author meets most,
//! because it is where the vocabulary's own sentences are enforced: the
//! per-slot shape table, the agreement two clauses reaching one cell owe
//! each other, what a total mark may carry, and what a reach into a
//! foreign prefix pays in shape.
use vstd::prelude::*;

use crate::address::AddressClass;
use crate::dsl::{
    same_optional, slot_of, supports, Clause, Expr, ModeExpr, RuleExpr, RuleLeaf, SlotRef,
    TargetExpr,
};
use crate::effect::{Moves, Presence};
use crate::resource::{GrantedBehaviour, ReachedCell};
use crate::rule::Rule;
use crate::signature::{AbiParam, Issuance, MethodSignature, Totality};
use crate::term::{same_bytes, Term};
use crate::types::{SlotId, Value, KERNEL_SLOT_BASE, PACKAGE_SLOT_BASE};
use crate::verdict::position_of;
use crate::vocabulary::{AUTH, CONFIG, HALT, INSTANCE, NF_VAULT, RESOURCE, VAULT};

verus! {

/// Why a signature's declared effects are not its to declare.
#[derive(Clone, Copy, Debug, PartialEq, Eq)]
pub enum DeclarationError {
    /// A clause targeting a prefix the declaring instance does not own.
    ForeignPrefix {
        /// The clause's place in a preorder walk of the signature's
        /// effects, `for-each` bodies counted in place.
        clause: u32,
    },
    /// A method claiming totality over a guarded clause. A total leg runs
    /// with every declared handle materialized, and a guarded-out clause
    /// materializes none.
    GuardedTotality,
    /// A method claiming totality beside a verdict some caller hears: a
    /// stored rule, or a reservation.
    ConditionalTotality,
    /// Two conditions on one target requiring opposite presences.
    PresenceConflict,
    /// A condition naming a target no access declares under a mode that
    /// can carry the judgment.
    ConditionUndeclared {
        /// The clause's place in the preorder.
        clause: u32,
    },
    /// A presence condition requiring `Either`, which nothing can fail.
    VacuousCondition {
        /// The clause's place in the preorder.
        clause: u32,
    },
    /// An issuance whose mark names nothing.
    UnmarkedIssuance,
    /// One mark issued twice by one method, which would give its body two
    /// indices for one resource.
    IssuanceNamedTwice,
    /// A reach declared under a behaviour that governs no foreign prefix.
    UnreachingBehaviour {
        /// The clause's place in the preorder.
        clause: u32,
        /// The behaviour named.
        behaviour: GrantedBehaviour,
    },
    /// A reach whose target is the declaring instance's own prefix, which
    /// needs no authority.
    ReachesItself {
        /// The clause's place in the preorder.
        clause: u32,
    },
    /// A reach naming a cell the behaviour admitting it does not govern: a
    /// freeze somewhere other than the holder's halt flag, or a recall of
    /// a cell that holds no value.
    ReachesAnotherCell {
        /// The clause's place in the preorder.
        clause: u32,
        /// The behaviour the reach was declared under.
        behaviour: GrantedBehaviour,
    },
    /// A slot named by an argument on a clause that reaches nothing.
    SlotWithoutReach {
        /// The clause's place in the preorder.
        clause: u32,
    },
    /// A reach whose target is not keyed first by a resource, so there is
    /// nothing whose entry could admit it.
    UnkeyedReach {
        /// The clause's place in the preorder.
        clause: u32,
    },
    /// A total method that brings supply into or out of existence.
    SupplyTotality,
    /// A destroyed parameter that carries no value edge.
    DestroysNoEdge {
        /// The parameter.
        param: u32,
    },
    /// One parameter destroyed twice, which would be two grants over one
    /// bucket.
    DestroyedTwice {
        /// The parameter.
        param: u32,
    },
    /// A frame issuing a resource whose own grants withhold the direction
    /// it takes.
    IssuanceUnadmitted(GrantedBehaviour),
    /// A mint no stored-rule condition beside it justifies.
    UnjustifiedMint {
        /// The clause's place in the preorder.
        clause: u32,
    },
    /// A badge mint whose possession condition is missing, or keyed by a
    /// different expression than the claim.
    MintUnheld {
        /// The clause's place in the preorder.
        clause: u32,
    },
    /// A condition whose rule reads what the caller supplies.
    CallerNamedCondition {
        /// The clause's place in the preorder.
        clause: u32,
    },
    /// A denomination list that does not line up with the parameters it
    /// indexes.
    DenominationArity {
        /// The parameter count.
        expected: usize,
        /// The denomination count.
        found: usize,
    },
    /// A denomination at a parameter that carries no value.
    DenominationKind {
        /// The parameter.
        param: u32,
        /// The kind declared there.
        kind: &'static str,
    },
    /// A clause naming a protocol cell in a shape that cell does not have.
    ProtocolSlotShape {
        /// The clause's place in the preorder.
        clause: u32,
        /// The slot named.
        slot: u16,
        /// The shape that slot does have.
        wanted: &'static str,
    },
    /// A denomination that is not the key the cell is reached by. A value
    /// cell is keyed by what it holds.
    DenominationNotKeyed {
        /// The clause's place in the preorder.
        clause: u32,
    },
    /// A commutative movement that does not say what it moves.
    UndenominatedMovement {
        /// The clause's place in the preorder.
        clause: u32,
    },
    /// A denomination written down as an address of a class that names no
    /// resource.
    NotAResource {
        /// The clause's place in the preorder.
        clause: u32,
        /// The class the expression is decided to carry.
        found: AddressClass,
    },
    /// A parameter's denomination written down as an address of a class
    /// that names no resource.
    ParamNotAResource {
        /// The parameter the denomination indexes.
        param: u32,
        /// The class the expression is decided to carry.
        found: AddressClass,
    },
    /// An output projection written down as an address of a class that
    /// names no resource.
    OutputNotAResource {
        /// The output's place in the signature's projection list.
        output: u32,
        /// The class the expression is decided to carry.
        found: AddressClass,
    },
    /// A clause naming a slot no cell is assigned: unassigned below the
    /// package band, or the kernel's own band at the top.
    ReservedSlot {
        /// The clause's place in the preorder.
        clause: u32,
        /// The slot named.
        slot: u16,
    },
    /// A mode and target pairing no handle is built for.
    UnsupportedAccess {
        /// The clause's place in the preorder.
        clause: u32,
    },
    /// Two clauses reaching one cell and disagreeing about what it holds.
    MixedContents {
        /// The clause's place in the preorder.
        clause: u32,
    },
}

/// Whether a target names the declaring instance's own prefix.
pub open spec fn own_prefix(target: TargetExpr) -> bool {
    match target {
        TargetExpr::Point(Expr::ChildKey { owner, .. }) => *owner is SelfAddr,
        TargetExpr::Point(Expr::FreshKey { .. }) => true,
        TargetExpr::Point(_) => false,
        TargetExpr::Entry { owner, .. } => owner is SelfAddr,
        TargetExpr::Range { owner, .. } => owner is SelfAddr,
    }
}

/// Whether a target names the declaring instance's own prefix.
///
/// The owner half of a key is either written as `SelfAddr` or derived
/// under it: a fresh key is minted under the instance that creates it,
/// and a child key names its owner outright. Everything else is another
/// object's prefix, whatever the author meant by it.
pub fn targets_own_prefix(target: &TargetExpr) -> (r: bool)
    ensures
        r == own_prefix(*target),
{
    match target {
        TargetExpr::Point(key) => match key {
            Expr::ChildKey { owner, .. } => match &**owner {
                Expr::SelfAddr => true,
                _ => false,
            },
            Expr::FreshKey { .. } => true,
            _ => false,
        },
        TargetExpr::Entry { owner, .. } => match owner {
            Expr::SelfAddr => true,
            _ => false,
        },
        TargetExpr::Range { owner, .. } => match owner {
            Expr::SelfAddr => true,
            _ => false,
        },
    }
}

/// What a target names as the thing whose contents are one fact: the leaf
/// a point names, or the collection an entry or an interval sits in.
pub open spec fn contents_term(target: TargetExpr) -> Term {
    match target {
        TargetExpr::Point(key) => Term::Node(0, seq![key.term()]),
        TargetExpr::Entry { owner, collection, material, .. } => Term::Node(
            1,
            seq![owner.term(), collection.term(), Term::Node(0, Expr::terms(material@))],
        ),
        TargetExpr::Range { owner, collection, material, .. } => Term::Node(
            1,
            seq![owner.term(), collection.term(), Term::Node(0, Expr::terms(material@))],
        ),
    }
}

/// The leaf or the collection whose contents a clause is an answer about.
///
/// Not the target itself, because two intervals of one collection are two
/// targets over one set of entries, so comparing targets would let two
/// answers about the same entries both through.
pub enum ContentsExpr<'a> {
    /// One leaf, as the expression naming it.
    Leaf(&'a Expr),
    /// Every entry of one collection, as the owner and identity it hangs
    /// under.
    Entries(&'a Expr, &'a SlotRef, &'a Vec<Expr>),
}

impl<'a> ContentsExpr<'a> {
    /// The contents as a term.
    pub open spec fn term(self) -> Term {
        match self {
            ContentsExpr::Leaf(key) => Term::Node(0, seq![key.term()]),
            ContentsExpr::Entries(owner, collection, material) => Term::Node(
                1,
                seq![owner.term(), collection.term(), Term::Node(0, Expr::terms(material@))],
            ),
        }
    }

    /// Whether two clauses are answers about the same thing.
    pub fn same(&self, other: &ContentsExpr<'a>) -> (r: bool)
        ensures
            r == (self.term() == other.term()),
    {
        match (self, other) {
            (ContentsExpr::Leaf(left), ContentsExpr::Leaf(right)) => {
                proof {
                    Term::lemma_one(left.term(), right.term());
                }
                left.same(right)
            },
            (
                ContentsExpr::Entries(owner, collection, material),
                ContentsExpr::Entries(host, held, by),
            ) => {
                proof {
                    Term::lemma_three(
                        owner.term(),
                        collection.term(),
                        Term::Node(0, Expr::terms(material@)),
                        host.term(),
                        held.term(),
                        Term::Node(0, Expr::terms(by@)),
                    );
                }
                owner.same(host) && collection.same(held) && Expr::all_same(
                    material.as_slice(),
                    by.as_slice(),
                )
            },
            _ => false,
        }
    }
}

/// Which cell's contents a clause is an answer about.
pub fn contents<'a>(target: &'a TargetExpr) -> (r: ContentsExpr<'a>)
    ensures
        r.term() == contents_term(*target),
{
    match target {
        TargetExpr::Point(key) => ContentsExpr::Leaf(key),
        TargetExpr::Entry { owner, collection, material, .. } => ContentsExpr::Entries(
            owner,
            collection,
            material,
        ),
        TargetExpr::Range { owner, collection, material, .. } => ContentsExpr::Entries(
            owner,
            collection,
            material,
        ),
    }
}

/// Whether one expression is another's negation.
pub open spec fn negates(left: Expr, right: Expr) -> bool {
    left matches Expr::Not(inner) && inner.term() == right.term()
}

/// Whether two guards are each other's negation, so no evaluation declares
/// both.
pub open spec fn are_complementary(
    left: Option<Box<Expr>>,
    right: Option<Box<Expr>>,
) -> bool {
    match (left, right) {
        (Some(one), Some(two)) => negates(*one, *two) || negates(*two, *one),
        _ => false,
    }
}

/// Whether two clauses' guards are each other's negation, so no evaluation
/// declares both.
///
/// Syntactic, because this runs where no arguments exist. An unguarded
/// clause is complementary to nothing: it fires always, so it meets
/// whatever else lands on its target.
pub fn complementary(left: &Option<Box<Expr>>, right: &Option<Box<Expr>>) -> (r: bool)
    ensures
        r == are_complementary(*left, *right),
{
    match (left, right) {
        (Some(one), Some(two)) => {
            let forward = match &**one {
                Expr::Not(inner) => inner.same(two),
                _ => false,
            };
            let backward = match &**two {
                Expr::Not(inner) => inner.same(one),
                _ => false,
            };
            forward || backward
        },
        _ => false,
    }
}

/// The class an expression is already known to carry where nothing has
/// been evaluated.
pub open spec fn known_class(expr: Expr) -> Option<AddressClass> {
    match expr {
        Expr::Literal(Value::Address(address)) => Some(address.class),
        Expr::SelfAddr => Some(AddressClass::Component),
        _ => None,
    }
}

/// The class a denomination-position expression is already known to carry
/// at publish, if it is decidable there: a literal address carries its own
/// class, and the declaring instance's address is a component's.
pub fn decided_class(expr: &Expr) -> (r: Option<AddressClass>)
    ensures
        r == known_class(*expr),
{
    match expr {
        Expr::Literal(value) => match value {
            Value::Address(address) => Some(address.class()),
            _ => None,
        },
        Expr::SelfAddr => Some(AddressClass::Component),
        _ => None,
    }
}

/// Whether a clause is a condition asking one presence and nothing else.
pub open spec fn asks_presence(clause: Clause) -> bool {
    clause matches Clause::Requires { rule, .. } && rule matches Rule::Require(leaf)
        && leaf is Presence
}

/// The target a presence condition asks about.
pub open spec fn asked_target(clause: Clause) -> TargetExpr {
    match clause {
        Clause::Requires { rule: Rule::Require(RuleLeaf::Presence { target, .. }), .. } => *target,
        _ => arbitrary(),
    }
}

/// What a presence condition asks of its target.
pub open spec fn asked_presence(clause: Clause) -> Presence {
    match clause {
        Clause::Requires { rule: Rule::Require(RuleLeaf::Presence { expect, .. }), .. } => expect,
        _ => arbitrary(),
    }
}

/// Whether two clauses are presence conditions on one target that can both
/// fire and that nothing can meet at once.
pub open spec fn presences_conflict(left: Clause, right: Clause) -> bool {
    &&& asks_presence(left)
    &&& asks_presence(right)
    &&& asked_target(left).term() == asked_target(right).term()
    &&& !are_complementary(left.condition(), right.condition())
    &&& !asked_presence(left).meets(asked_presence(right))
}

/// Whether any two conditions of a declaration conflict.
pub open spec fn has_presence_conflict(flat: Seq<Clause>) -> bool {
    exists|i: int, j: int|
        0 <= i < j < flat.len() && presences_conflict(#[trigger] flat[i], #[trigger] flat[j])
}

/// Whether a clause is an access under the declaring instance's own
/// authority.
pub open spec fn is_access(clause: Clause) -> bool {
    clause matches Clause::Effect { reach, .. } && reach is None
}

/// What an access reaches.
pub open spec fn access_target(clause: Clause) -> TargetExpr {
    match clause {
        Clause::Effect { target, .. } => target,
        _ => arbitrary(),
    }
}

/// How an access reaches it.
pub open spec fn access_mode(clause: Clause) -> ModeExpr {
    match clause {
        Clause::Effect { mode, .. } => mode,
        _ => arbitrary(),
    }
}

/// The resource an access moves, where it says.
pub open spec fn access_denomination(clause: Clause) -> Option<Box<Expr>> {
    match clause {
        Clause::Effect { denomination, .. } => denomination,
        _ => None,
    }
}

/// Whether two accesses answer differently about one cell: one says it
/// holds value and the other that it does not.
pub open spec fn contents_mixed(left: Clause, right: Clause) -> bool {
    &&& is_access(left)
    &&& is_access(right)
    &&& contents_term(access_target(left)) == contents_term(access_target(right))
    &&& access_denomination(left) is Some != access_denomination(right) is Some
}

/// The verdict on what the clause at `index` says a cell holds, beside the
/// clauses before it.
pub open spec fn contents_verdict(flat: Seq<Clause>, index: int) -> Result<(), DeclarationError> {
    if exists|i: int| 0 <= i < index && contents_mixed(#[trigger] flat[i], flat[index]) {
        Err(DeclarationError::MixedContents { clause: crate::verdict::position(index as nat) })
    } else {
        Ok(())
    }
}

/// The verdicts on what each clause says a cell holds, in order.
pub open spec fn contents_verdicts(flat: Seq<Clause>) -> Seq<Result<(), DeclarationError>> {
    Seq::new(flat.len(), |i: int| contents_verdict(flat, i))
}

/// The verdict on whether clauses reaching one target say the same thing
/// about it.
pub open spec fn agreement_verdict(flat: Seq<Clause>) -> Result<(), DeclarationError> {
    if has_presence_conflict(flat) {
        Err(DeclarationError::PresenceConflict)
    } else {
        crate::verdict::first_refusal(contents_verdicts(flat))
    }
}

/// Whether two conditions conflict.
fn conflict(left: &Clause, right: &Clause) -> (r: bool)
    ensures
        r == presences_conflict(*left, *right),
{
    match (left, right) {
        (
            Clause::Requires { guard, rule: Rule::Require(RuleLeaf::Presence { target, expect }) },
            Clause::Requires {
                guard: under,
                rule: Rule::Require(RuleLeaf::Presence { target: named, expect: wanted }),
            },
        ) => target.same(named) && !complementary(guard, under) && expect.meet(*wanted).is_none(),
        _ => false,
    }
}

/// Whether two accesses answer differently about one cell.
fn mixed(left: &Clause, right: &Clause) -> (r: bool)
    ensures
        r == contents_mixed(*left, *right),
{
    match (left, right) {
        (
            Clause::Effect { reach: None, target, denomination, .. },
            Clause::Effect { reach: None, target: named, denomination: held, .. },
        ) => denomination.is_some() != held.is_some() && contents(target).same(&contents(named)),
        _ => false,
    }
}

/// The agreement pass: two clauses reaching one target say the same thing
/// about it, what has to be there and whether it holds value, or the
/// declaration names a leaf no execution has.
///
/// Every pair of conditions is compared, rather than a fold into one
/// requirement per target, because co-firing is a relation between two
/// clauses and not a property of the target they share. What a cell holds
/// knows no guard: it is not a question an execution answers at all.
pub fn check_agreement(flat: &Vec<&Clause>) -> (r: Result<(), DeclarationError>)
    ensures
        r == agreement_verdict(flat@.unref()),
{
    let ghost all = flat@.unref();
    let mut j: usize = 0;
    while j < flat.len()
        invariant
            j <= flat.len(),
            all == flat@.unref(),
            forall|p: int, q: int|
                0 <= p < q < j ==> !presences_conflict(#[trigger] all[p], #[trigger] all[q]),
        decreases flat.len() - j,
    {
        let mut i: usize = 0;
        while i < j
            invariant
                i <= j < flat.len(),
                all == flat@.unref(),
                forall|p: int| 0 <= p < i ==> !presences_conflict(#[trigger] all[p], all[j as int]),
            decreases j - i,
        {
            assert(all[i as int] == *flat@[i as int]);
            assert(all[j as int] == *flat@[j as int]);
            if conflict(flat[i], flat[j]) {
                assert(presences_conflict(all[i as int], all[j as int]));
                return Err(DeclarationError::PresenceConflict);
            }
            i = i + 1;
        }
        j = j + 1;
    }
    assert(!has_presence_conflict(all));
    let ghost verdicts = contents_verdicts(all);
    proof {
        crate::verdict::lemma_all(verdicts);
    }
    let mut index: usize = 0;
    while index < flat.len()
        invariant
            index <= flat.len(),
            all == flat@.unref(),
            verdicts == contents_verdicts(all),
            agreement_verdict(all) == crate::verdict::first_refusal(verdicts),
            crate::verdict::first_refusal(verdicts.take(index as int)) is Ok,
        decreases flat.len() - index,
    {
        proof {
            crate::verdict::lemma_one_more(verdicts, index as int);
        }
        assert(all[index as int] == *flat@[index as int]);
        let mut i: usize = 0;
        while i < index
            invariant
                i <= index < flat.len(),
                all == flat@.unref(),
                all[index as int] == *flat@[index as int],
                forall|p: int| 0 <= p < i ==> !contents_mixed(#[trigger] all[p], all[index as int]),
                verdicts == contents_verdicts(all),
                agreement_verdict(all) == crate::verdict::first_refusal(verdicts),
                verdicts[index as int] is Err ==> crate::verdict::first_refusal(verdicts)
                    == verdicts[index as int],
            decreases index - i,
        {
            assert(all[i as int] == *flat@[i as int]);
            if mixed(flat[i], flat[index]) {
                assert(contents_mixed(all[i as int], all[index as int]));
                return Err(DeclarationError::MixedContents { clause: position_of(index) });
            }
            i = i + 1;
        }
        index = index + 1;
    }
    proof {
        crate::verdict::lemma_all(verdicts);
    }
    Ok(())
}

/// Whether material is one term, and the denomination names it again.
pub open spec fn keyed_by_denomination(
    material: Seq<Expr>,
    denomination: Option<Box<Expr>>,
) -> bool {
    material.len() == 1 && (denomination matches Some(named) && named.term()
        == material[0].term())
}

/// Whether a cell of `terms` terms of material holds no value.
pub open spec fn keyed_plain(
    material: Seq<Expr>,
    denomination: Option<Box<Expr>>,
    terms: nat,
) -> bool {
    material.len() == terms && denomination is None
}

/// Whether a mode reads, or writes what must be absent.
pub open spec fn reads_or_creates(mode: ModeExpr, required: Option<Presence>) -> bool {
    mode is Read || (mode is Write && required == Some(Presence::Absent))
}

/// Whether a mode reads, or writes where the leaf's presence is stated.
pub open spec fn reads_or_states(mode: ModeExpr, required: Option<Presence>) -> bool {
    mode is Read || (mode is Write && required is Some)
}

/// Whether a mode reads or writes.
pub open spec fn reads_or_writes(mode: ModeExpr) -> bool {
    mode is Read || mode is Write
}

/// The shape the vocabulary fixes for a slot below the package band:
/// whether this access has it, and the sentence saying what it is. Nothing
/// where the vocabulary assigns the slot no cell at all.
pub open spec fn protocol_cell(
    slot: u16,
    point: bool,
    material: Seq<Expr>,
    mode: ModeExpr,
    denomination: Option<Box<Expr>>,
    required: Option<Presence>,
) -> Option<(bool, &'static str)> {
    if slot == VAULT {
        Some(
            (
                point && keyed_by_denomination(material, denomination),
                "holds a fungible balance: one leaf, keyed by the resource it holds, \
                 denominated in that resource",
            ),
        )
    } else if slot == NF_VAULT {
        Some(
            (
                !point && keyed_by_denomination(material, denomination) && reads_or_writes(mode),
                "holds a resource's instances: an interval or one of its entries, keyed by \
                 that resource and denominated in it",
            ),
        )
    } else if slot == CONFIG {
        Some(
            (
                point && keyed_plain(material, denomination, 0) && reads_or_creates(
                    mode,
                    required,
                ),
                "is the creation-fixed configuration leaf: one leaf, no material, \
                 written where absent and never rewritten",
            ),
        )
    } else if slot == AUTH {
        Some(
            (
                point && keyed_plain(material, denomination, 0) && reads_or_writes(mode),
                "is the stored authority cell: one leaf, no material, read or rewritten whole",
            ),
        )
    } else if slot == HALT {
        Some(
            (
                point && keyed_plain(material, denomination, 1) && reads_or_writes(mode),
                "is a holder's halt flag for one resource: one leaf, keyed by that resource, \
                 holding no value",
            ),
        )
    } else if slot == RESOURCE {
        Some(
            (
                point && keyed_plain(material, denomination, 1) && reads_or_creates(
                    mode,
                    required,
                ),
                "is a resource's record under its issuer: one leaf, keyed by the resource, \
                 written where absent",
            ),
        )
    } else if slot == INSTANCE {
        Some(
            (
                point && keyed_plain(material, denomination, 2) && reads_or_states(
                    mode,
                    required,
                ),
                "is an instance's data under its issuer: one leaf, keyed by the resource and \
                 the id, written where the leaf's presence is stated — absent at the mint, \
                 present at a rewrite or a retirement",
            ),
        )
    } else {
        None
    }
}

/// Whether a clause's target, mode and denomination are the shape the
/// vocabulary fixes for `slot`, and the sentence saying what that shape
/// is. `None` where the vocabulary assigns the slot no cell at all.
///
/// One arm per cell, and the sentence beside each is what an author is
/// told.
pub fn vocabulary_shape(
    slot: u16,
    target: &TargetExpr,
    material: &Vec<Expr>,
    mode: &ModeExpr,
    denomination: &Option<Box<Expr>>,
    required: Option<Presence>,
) -> (r: Option<(bool, &'static str)>)
    ensures
        r == protocol_cell(slot, target is Point, material@, *mode, *denomination, required),
{
    let point = match target {
        TargetExpr::Point(_) => true,
        _ => false,
    };
    // A value cell is keyed by what it holds, so where the declaration
    // names a resource it names the key again, in every mode the cell is
    // reached in, a read included.
    let keyed_by_what_it_holds = material.len() == 1 && match denomination {
        Some(named) => named.same(&material[0]),
        None => false,
    };
    let plain = denomination.is_none();
    let read = match mode {
        ModeExpr::Read => true,
        _ => false,
    };
    let write = match mode {
        ModeExpr::Write { .. } => true,
        _ => false,
    };
    // A write that creates carries its one-way door as a condition beside
    // it: the leaf absent, firing whenever the write does.
    let absent = match required {
        Some(presence) => presence == Presence::Absent,
        None => false,
    };
    let creates = read || (write && absent);
    // A cell whose lifetime one owner runs is written at both ends of it,
    // and which end this is stands beside the write.
    let lifetime = read || (write && required.is_some());
    if slot == VAULT {
        Some(
            (
                point && keyed_by_what_it_holds,
                "holds a fungible balance: one leaf, keyed by the resource it holds, \
                 denominated in that resource",
            ),
        )
    } else if slot == NF_VAULT {
        Some(
            (
                !point && keyed_by_what_it_holds && (read || write),
                "holds a resource's instances: an interval or one of its entries, keyed by \
                 that resource and denominated in it",
            ),
        )
    } else if slot == CONFIG {
        Some(
            (
                point && material.len() == 0 && plain && creates,
                "is the creation-fixed configuration leaf: one leaf, no material, \
                 written where absent and never rewritten",
            ),
        )
    } else if slot == AUTH {
        Some(
            (
                point && material.len() == 0 && plain && (read || write),
                "is the stored authority cell: one leaf, no material, read or rewritten whole",
            ),
        )
    } else if slot == HALT {
        Some(
            (
                point && material.len() == 1 && plain && (read || write),
                "is a holder's halt flag for one resource: one leaf, keyed by that resource, \
                 holding no value",
            ),
        )
    } else if slot == RESOURCE {
        Some(
            (
                point && material.len() == 1 && plain && creates,
                "is a resource's record under its issuer: one leaf, keyed by the resource, \
                 written where absent",
            ),
        )
    } else if slot == INSTANCE {
        Some(
            (
                point && material.len() == 2 && plain && lifetime,
                "is an instance's data under its issuer: one leaf, keyed by the resource and \
                 the id, written where the leaf's presence is stated — absent at the mint, \
                 present at a rewrite or a retirement",
            ),
        )
    } else {
        None
    }
}

/// The verdict on a clause naming a cell the protocol derives keys for.
pub open spec fn shape_verdict(
    clause: u32,
    target: TargetExpr,
    mode: ModeExpr,
    denomination: Option<Box<Expr>>,
    required: Option<Presence>,
) -> Result<(), DeclarationError> {
    match crate::dsl::named_slot(target) {
        Some((SlotRef::Fixed(slot), material)) => if slot.0 >= KERNEL_SLOT_BASE {
            Err(DeclarationError::ReservedSlot { clause, slot: slot.0 })
        } else if slot.0 >= PACKAGE_SLOT_BASE {
            Ok(())
        } else {
            match protocol_cell(slot.0, target is Point, material, mode, denomination, required) {
                None => Err(DeclarationError::ReservedSlot { clause, slot: slot.0 }),
                Some((shaped, wanted)) => if shaped {
                    Ok(())
                } else {
                    Err(DeclarationError::ProtocolSlotShape { clause, slot: slot.0, wanted })
                },
            }
        },
        _ => Ok(()),
    }
}

/// Judge a clause naming a cell the protocol derives keys for.
///
/// The vocabulary below the package band is the set of cells an engine
/// finds without consulting any metadata, which is what makes their values
/// protocol facts. A fact has a shape, so a clause naming one of these
/// cells any other way is a clause whose leaf would be read as something
/// it does not hold. The kernel's own band at the top is refused outright,
/// as is any slot below the base the vocabulary has not assigned.
///
/// A slot an argument names has no constant to dispatch on, so the table
/// has nothing to say about it here.
pub fn protocol_shape(
    clause: u32,
    target: &TargetExpr,
    mode: &ModeExpr,
    denomination: &Option<Box<Expr>>,
    required: Option<Presence>,
) -> (r: Result<(), DeclarationError>)
    ensures
        r == shape_verdict(clause, *target, *mode, *denomination, required),
{
    let (reference, material) = match slot_of(target) {
        Some(named) => named,
        None => {
            return Ok(());
        },
    };
    let slot = match reference.fixed() {
        Some(slot) => slot,
        None => {
            return Ok(());
        },
    };
    if slot.0 >= KERNEL_SLOT_BASE {
        return Err(DeclarationError::ReservedSlot { clause, slot: slot.0 });
    }
    if slot.0 >= PACKAGE_SLOT_BASE {
        return Ok(());
    }
    match vocabulary_shape(slot.0, target, material, mode, denomination, required) {
        None => Err(DeclarationError::ReservedSlot { clause, slot: slot.0 }),
        Some((shaped, wanted)) => if shaped {
            Ok(())
        } else {
            Err(DeclarationError::ProtocolSlotShape { clause, slot: slot.0, wanted })
        },
    }
}

/// Whether material begins with something that may be a resource: one
/// decided to be, or one nothing is decided about.
pub open spec fn keyed_by_a_resource(material: Seq<Expr>) -> bool {
    material.len() > 0 && match known_class(material[0]) {
        None => true,
        Some(found) => found == AddressClass::Resource || found == AddressClass::Restricted,
    }
}

/// The verdict on a clause that reaches a prefix under `behaviour`.
pub open spec fn reach_verdict(
    clause: u32,
    target: TargetExpr,
    denomination: Option<Box<Expr>>,
    behaviour: GrantedBehaviour,
) -> Result<(), DeclarationError> {
    match behaviour.reached() {
        None => Err(DeclarationError::UnreachingBehaviour { clause, behaviour }),
        Some(reached) => if own_prefix(target) {
            Err(DeclarationError::ReachesItself { clause })
        } else {
            match crate::dsl::named_slot(target) {
                None => Err(DeclarationError::UnkeyedReach { clause }),
                Some((slot, material)) => if !keyed_by_a_resource(material) {
                    Err(DeclarationError::UnkeyedReach { clause })
                } else if match reached {
                    ReachedCell::Halt => slot.constant() == Some(SlotId(HALT)),
                    ReachedCell::Holding => denomination is Some,
                } {
                    Ok(())
                } else {
                    Err(DeclarationError::ReachesAnotherCell { clause, behaviour })
                },
            }
        },
    }
}

/// Judge a clause that reaches a prefix that is not the declaring
/// instance's own.
///
/// Three things make the reach safe, and all three are shape rather than
/// review. The owner is not this instance, because a reach into one's own
/// prefix is an ordinary access wearing an authority it does not need. The
/// target is keyed first by a resource, which is the resource whose entry
/// admits the reach. And the cell is the one the behaviour is about: a halt
/// flag is one slot the vocabulary fixes, so it is named by its slot; a
/// holding is wherever the holder keeps it, so it is named by its
/// denomination.
pub fn judge_reach(
    clause: u32,
    target: &TargetExpr,
    denomination: &Option<Box<Expr>>,
    behaviour: GrantedBehaviour,
) -> (r: Result<(), DeclarationError>)
    ensures
        r == reach_verdict(clause, *target, *denomination, behaviour),
{
    let reached = match behaviour.reaches() {
        Some(reached) => reached,
        None => {
            return Err(DeclarationError::UnreachingBehaviour { clause, behaviour });
        },
    };
    if targets_own_prefix(target) {
        return Err(DeclarationError::ReachesItself { clause });
    }
    let (slot, material) = match slot_of(target) {
        Some(named) => named,
        None => {
            return Err(DeclarationError::UnkeyedReach { clause });
        },
    };
    let by_a_resource = material.len() > 0 && match decided_class(&material[0]) {
        None => true,
        Some(found) => found == AddressClass::Resource || found == AddressClass::Restricted,
    };
    if !by_a_resource {
        return Err(DeclarationError::UnkeyedReach { clause });
    }
    let names_its_cell = match reached {
        ReachedCell::Halt => match slot.fixed() {
            Some(named) => named.0 == HALT,
            None => false,
        },
        ReachedCell::Holding => denomination.is_some(),
    };
    if names_its_cell {
        Ok(())
    } else {
        Err(DeclarationError::ReachesAnotherCell { clause, behaviour })
    }
}

/// Whether a guard fires whenever a clause under `under` does: there is
/// none, or it is the same one.
pub open spec fn fires_with(guard: Option<Box<Expr>>, under: Option<Box<Expr>>) -> bool {
    guard is None || crate::dsl::optional_term(guard) == crate::dsl::optional_term(under)
}

/// Whether a guard fires whenever a clause under `under` does.
fn fires_beside(guard: &Option<Box<Expr>>, under: &Option<Box<Expr>>) -> (r: bool)
    ensures
        r == fires_with(*guard, *under),
{
    guard.is_none() || same_optional(guard, under)
}

/// What a declaration says about the presence of a target's leaf wherever
/// an access under `under` fires: what the first such condition asks.
pub open spec fn stated_presence(
    flat: Seq<Clause>,
    target: TargetExpr,
    under: Option<Box<Expr>>,
) -> Option<Presence>
    decreases flat.len(),
{
    if flat.len() == 0 {
        None
    } else {
        let before = stated_presence(flat.drop_last(), target, under);
        let clause = flat.last();
        if before is Some {
            before
        } else if asks_presence(clause) && asked_target(clause).term() == target.term()
            && fires_with(clause.condition(), under) {
            Some(asked_presence(clause))
        } else {
            None
        }
    }
}

/// What a declaration says early it goes on saying.
proof fn lemma_stated_early(
    flat: Seq<Clause>,
    target: TargetExpr,
    under: Option<Box<Expr>>,
    taken: int,
)
    requires
        0 <= taken <= flat.len(),
        stated_presence(flat.take(taken), target, under) is Some,
    ensures
        stated_presence(flat, target, under) == stated_presence(flat.take(taken), target, under),
    decreases flat.len() - taken,
{
    if taken < flat.len() {
        assert(flat.take(taken + 1).drop_last() =~= flat.take(taken));
        lemma_stated_early(flat, target, under, taken + 1);
    } else {
        assert(flat.take(taken) =~= flat);
    }
}

/// What a declaration says about the presence of a target's leaf wherever
/// an access under `under` fires.
fn find_presence(
    flat: &Vec<&Clause>,
    target: &TargetExpr,
    under: &Option<Box<Expr>>,
) -> (r: Option<Presence>)
    ensures
        r == stated_presence(flat@.unref(), *target, *under),
{
    let ghost all = flat@.unref();
    let mut i: usize = 0;
    assert(all.take(0) =~= Seq::empty());
    while i < flat.len()
        invariant
            i <= flat.len(),
            all == flat@.unref(),
            stated_presence(all.take(i as int), *target, *under) is None,
        decreases flat.len() - i,
    {
        proof {
            assert(all.take(i as int + 1).drop_last() =~= all.take(i as int));
            assert(all.take(i as int + 1).last() == *flat@[i as int]);
        }
        match flat[i] {
            Clause::Requires {
                guard,
                rule: Rule::Require(RuleLeaf::Presence { target: asked, expect }),
            } => {
                if asked.same(target) && fires_beside(guard, under) {
                    proof {
                        lemma_stated_early(all, *target, *under, i as int + 1);
                    }
                    return Some(*expect);
                }
            },
            _ => {},
        }
        i = i + 1;
    }
    assert(all.take(i as int) =~= all);
    None
}

/// The verdict on whose prefix an access names.
pub open spec fn prefix_verdict(
    clause: u32,
    target: TargetExpr,
    denomination: Option<Box<Expr>>,
    reach: Option<GrantedBehaviour>,
) -> Result<(), DeclarationError> {
    match reach {
        Some(behaviour) => reach_verdict(clause, target, denomination, behaviour),
        None => if !own_prefix(target) {
            Err(DeclarationError::ForeignPrefix { clause })
        } else if crate::dsl::named_slot(target) matches Some((slot, _)) && slot.constant() is None {
            Err(DeclarationError::SlotWithoutReach { clause })
        } else {
            Ok(())
        },
    }
}

/// Whether a denomination is the key its cell is reached by.
pub open spec fn denomination_is_key(target: TargetExpr, held: Expr) -> bool {
    crate::dsl::named_slot(target) matches Some((_, material)) && material.len() > 0
        && material[0].term() == held.term()
}

/// Whether a mode moves value and does nothing else, so the declaration
/// owes an answer about what.
pub open spec fn only_moves(mode: ModeExpr) -> bool {
    mode is Reserve || (mode matches ModeExpr::Delta { moves } && moves != Moves::In)
}

/// The verdict on what an access says its cell holds.
pub open spec fn holding_verdict(
    clause: u32,
    target: TargetExpr,
    mode: ModeExpr,
    denomination: Option<Box<Expr>>,
) -> Result<(), DeclarationError> {
    match denomination {
        Some(held) => if !denomination_is_key(target, *held) {
            Err(DeclarationError::DenominationNotKeyed { clause })
        } else {
            match known_class(*held) {
                Some(found) => if found != AddressClass::Resource {
                    Err(DeclarationError::NotAResource { clause, found })
                } else {
                    Ok(())
                },
                None => Ok(()),
            }
        },
        None => if only_moves(mode) {
            Err(DeclarationError::UndenominatedMovement { clause })
        } else {
            Ok(())
        },
    }
}

/// The verdict on the clause at `index`, where it is an access: whose
/// prefix it names, which cell under that prefix, whether a handle is
/// built for reaching it that way, and what that cell holds.
pub open spec fn access_verdict(flat: Seq<Clause>, index: int) -> Result<(), DeclarationError> {
    let clause = crate::verdict::position(index as nat);
    match flat[index] {
        Clause::Effect { guard, target, mode, denomination, reach } => {
            crate::verdict::followed_by(
                prefix_verdict(clause, target, denomination, reach),
                crate::verdict::followed_by(
                    shape_verdict(
                        clause,
                        target,
                        mode,
                        denomination,
                        stated_presence(flat, target, guard),
                    ),
                    if !crate::dsl::is_supported(target, mode) {
                        Err(DeclarationError::UnsupportedAccess { clause })
                    } else {
                        holding_verdict(clause, target, mode, denomination)
                    },
                ),
            )
        },
        _ => Ok(()),
    }
}

/// The verdicts on a declaration's accesses, in order.
pub open spec fn access_verdicts(flat: Seq<Clause>) -> Seq<Result<(), DeclarationError>> {
    Seq::new(flat.len(), |i: int| access_verdict(flat, i))
}

/// Judge what an access says its cell holds.
fn judge_holding(
    clause: u32,
    target: &TargetExpr,
    mode: &ModeExpr,
    denomination: &Option<Box<Expr>>,
) -> (r: Result<(), DeclarationError>)
    ensures
        r == holding_verdict(clause, *target, *mode, *denomination),
{
    match denomination {
        // What a cell holds is part of the key it is reached by, so the
        // two are one expression written twice. A fresh key carries no
        // material and so holds no value.
        Some(held) => {
            let keyed = match slot_of(target) {
                Some((_, material)) => material.len() > 0 && material[0].same(held),
                None => false,
            };
            if !keyed {
                return Err(DeclarationError::DenominationNotKeyed { clause });
            }
            // The class is decidable at publish only where the
            // denomination is written down.
            match decided_class(held) {
                Some(found) => if found != AddressClass::Resource {
                    Err(DeclarationError::NotAResource { clause, found })
                } else {
                    Ok(())
                },
                None => Ok(()),
            }
        },
        None => {
            let moves_value = match mode {
                ModeExpr::Delta { moves } => *moves != Moves::In,
                ModeExpr::Reserve(_) => true,
                _ => false,
            };
            if moves_value {
                Err(DeclarationError::UndenominatedMovement { clause })
            } else {
                Ok(())
            }
        },
    }
}

/// Judge one access clause: whose prefix it names, which cell under that
/// prefix, whether a handle is built for reaching it that way, what that
/// cell holds, and what it requires of the leaf.
///
/// Ordered as an author would want to hear it. A clause reaching a
/// stranger's leaf is wrong about more than its shape, and a clause naming
/// a protocol cell hears that cell's own sentence before the general rules
/// the sentence is a special case of.
pub fn judge_access(index: usize, flat: &Vec<&Clause>) -> (r: Result<(), DeclarationError>)
    requires
        index < flat@.len(),
    ensures
        r == access_verdict(flat@.unref(), index as int),
{
    let clause = position_of(index);
    assert(flat@.unref()[index as int] == *flat@[index as int]);
    match flat[index] {
        Clause::Effect { guard, target, mode, denomination, reach } => {
            // A reach is the one thing that lets a declaration name a
            // prefix that is not its own, and it pays for it in shape.
            match reach {
                Some(behaviour) => match judge_reach(clause, target, denomination, *behaviour) {
                    Ok(()) => {},
                    Err(refusal) => {
                        return Err(refusal);
                    },
                },
                None => {
                    if !targets_own_prefix(target) {
                        return Err(DeclarationError::ForeignPrefix { clause });
                    }
                    // A slot an argument names is the reach's alone:
                    // everywhere else the slot is the constant the shape
                    // table dispatches on.
                    match slot_of(target) {
                        Some((slot, _)) => {
                            if slot.fixed().is_none() {
                                return Err(DeclarationError::SlotWithoutReach { clause });
                            }
                        },
                        None => {},
                    }
                },
            }
            // What this write says about the leaf's presence: a condition
            // on the same target, firing whenever the write does. The
            // first such condition is the answer, because any two that
            // match already agree.
            let required = find_presence(flat, target, guard);
            match protocol_shape(clause, target, mode, denomination, required) {
                Ok(()) => {},
                Err(refusal) => {
                    return Err(refusal);
                },
            }
            if !supports(target, mode) {
                return Err(DeclarationError::UnsupportedAccess { clause });
            }
            judge_holding(clause, target, mode, denomination)
        },
        _ => Ok(()),
    }
}

/// Whether a clause writes the declaring component's own configuration
/// leaf.
pub open spec fn writes_config(clause: Clause) -> bool {
    match clause {
        Clause::Effect {
            reach: None,
            target: TargetExpr::Point(Expr::ChildKey { owner, slot, material }),
            mode: ModeExpr::Write { .. },
            ..
        } => *owner is SelfAddr && slot.constant() == Some(SlotId(CONFIG)) && material@.len() == 0,
        _ => false,
    }
}

/// Whether any clause of a method writes the declaring component's own
/// configuration leaf.
pub open spec fn is_seal(signature: MethodSignature) -> bool {
    exists|i: int|
        0 <= i < Clause::preorder(signature.effects@).len() && writes_config(
            #[trigger] Clause::preorder(signature.effects@)[i],
        )
}

/// Whether a method writes the component's own configuration leaf: the one
/// write the `CONFIG` slot admits, and so the seal that makes a component
/// actual.
///
/// The `Absent` door beside it is not asked about here: the slot's shape
/// admits no `CONFIG` write without one.
pub fn seals(signature: &MethodSignature) -> (r: bool)
    ensures
        r == is_seal(*signature),
{
    let flat = Clause::flatten(&signature.effects);
    let ghost all = flat@.unref();
    let mut i: usize = 0;
    while i < flat.len()
        invariant
            i <= flat.len(),
            all == flat@.unref(),
            all == Clause::preorder(signature.effects@),
            forall|j: int| 0 <= j < i ==> !writes_config(#[trigger] all[j]),
        decreases flat.len() - i,
    {
        assert(all[i as int] == *flat@[i as int]);
        let found = match flat[i] {
            Clause::Effect {
                reach: None,
                target: TargetExpr::Point(Expr::ChildKey { owner, slot, material }),
                mode: ModeExpr::Write { .. },
                ..
            } => {
                let own = match &**owner {
                    Expr::SelfAddr => true,
                    _ => false,
                };
                let config = match slot.fixed() {
                    Some(named) => named.0 == CONFIG,
                    None => false,
                };
                own && config && material.len() == 0
            },
            _ => false,
        };
        if found {
            assert(writes_config(all[i as int]));
            return true;
        }
        i = i + 1;
    }
    false
}

/// The declaring component's own configuration leaf.
fn config_leaf() -> (r: TargetExpr)
    ensures
        match r {
            TargetExpr::Point(Expr::ChildKey { owner, slot, material }) => *owner is SelfAddr
                && slot == SlotRef::Fixed(SlotId(CONFIG)) && material@.len() == 0,
            _ => false,
        },
{
    TargetExpr::Point(
        Expr::ChildKey {
            owner: Box::new(Expr::SelfAddr),
            slot: SlotRef::Fixed(SlotId(CONFIG)),
            material: Vec::new(),
        },
    )
}

/// Whether clauses are a component's seal: its own configuration leaf
/// required absent, and that leaf written, neither under a guard.
pub open spec fn are_seal_clauses(clauses: Seq<Clause>) -> bool {
    &&& clauses.len() == 2
    &&& asks_presence(clauses[0])
    &&& clauses[0].condition() is None
    &&& asked_presence(clauses[0]) == Presence::Absent
    &&& writes_config(clauses[1])
    &&& clauses[1].condition() is None
    &&& access_denomination(clauses[1]) is None
    &&& access_mode(clauses[1]) == (ModeExpr::Write { moves: Moves::Both })
    &&& asked_target(clauses[0]).term() == access_target(clauses[1]).term()
}

/// The clauses a component's seal declares: the write of its own
/// configuration leaf, under the one-way door its absence is.
pub fn seal_clauses() -> (r: Vec<Clause>)
    ensures
        are_seal_clauses(r@),
{
    let door = config_leaf();
    let leaf = config_leaf();
    proof {
        let asked = door->Point_0;
        let written = leaf->Point_0;
        reveal(Expr::inside);
        reveal(Expr::head);
        let owner = *asked->ChildKey_owner;
        assert(asked.inside() =~= seq![owner]);
        assert(written.inside() =~= seq![owner]);
        asked.lemma_term();
        written.lemma_term();
    }
    let mut r: Vec<Clause> = Vec::new();
    r.push(
        Clause::Requires {
            guard: None,
            rule: Rule::Require(
                RuleLeaf::Presence { target: Box::new(door), expect: Presence::Absent },
            ),
        },
    );
    r.push(
        Clause::Effect {
            guard: None,
            target: leaf,
            mode: ModeExpr::Write { moves: Moves::Both },
            denomination: None,
            reach: None,
        },
    );
    r
}

/// Whether a rule reads a stored rule anywhere in it.
pub open spec fn reads_stored(rule: RuleExpr) -> bool {
    exists|i: int| 0 <= i < rule.all_leaves().len() && #[trigger] rule.all_leaves()[i] is Stored
}

/// Whether a rule reads a stored rule anywhere in it.
fn holds_stored(rule: &RuleExpr) -> (r: bool)
    ensures
        r == reads_stored(*rule),
{
    let leaves = rule.leaves();
    let mut i: usize = 0;
    while i < leaves.len()
        invariant
            i <= leaves.len(),
            leaves@.unref() == rule.all_leaves(),
            forall|j: int| 0 <= j < i ==> #[trigger] rule.all_leaves()[j] !is Stored,
        decreases leaves.len() - i,
    {
        assert(leaves@.unref()[i as int] == *leaves@[i as int]);
        match leaves[i] {
            RuleLeaf::Stored { .. } => {
                assert(rule.all_leaves()[i as int] is Stored);
                return true;
            },
            _ => {},
        }
        i = i + 1;
    }
    false
}

/// Whether a clause carries a verdict some caller hears after a leg has
/// run: a stored rule, or a reservation.
pub open spec fn heard_in_the_leg(clause: Clause) -> bool {
    match clause {
        Clause::Requires { rule, .. } => reads_stored(rule),
        Clause::Effect { reach: None, mode: ModeExpr::Reserve(_), .. } => true,
        _ => false,
    }
}

/// The verdict on what a total mark stands beside.
pub open spec fn totality_verdict(
    signature: MethodSignature,
    flat: Seq<Clause>,
) -> Result<(), DeclarationError> {
    if signature.totality != Totality::Total {
        Ok(())
    } else if exists|i: int| 0 <= i < flat.len() && heard_in_the_leg(#[trigger] flat[i]) {
        Err(DeclarationError::ConditionalTotality)
    } else if signature.issues@.len() > 0 || signature.destroys@.len() > 0 {
        Err(DeclarationError::SupplyTotality)
    } else {
        Ok(())
    }
}

/// What a total mark cannot stand beside, read off the declaration.
///
/// The mark promises a caller may commit without waiting to hear back, so
/// every verdict the frame carries has to land before any leg does. A rule
/// reaching a stored rule needs the session, which only the declaring
/// node's own walk holds; a reservation is a verdict on the caller's own
/// request; and what a leg nothing waits on may do to supply is answered
/// where that leg is settled.
pub fn check_totality(signature: &MethodSignature, flat: &Vec<&Clause>) -> (r: Result<
    (),
    DeclarationError,
>)
    ensures
        r == totality_verdict(*signature, flat@.unref()),
{
    if !signature.totality.is_total() {
        return Ok(());
    }
    let ghost all = flat@.unref();
    let mut i: usize = 0;
    while i < flat.len()
        invariant
            i <= flat.len(),
            all == flat@.unref(),
            signature.totality == Totality::Total,
            forall|j: int| 0 <= j < i ==> !heard_in_the_leg(#[trigger] all[j]),
        decreases flat.len() - i,
    {
        assert(all[i as int] == *flat@[i as int]);
        let heard = match flat[i] {
            Clause::Requires { rule, .. } => holds_stored(rule),
            Clause::Effect { reach: None, mode: ModeExpr::Reserve(_), .. } => true,
            _ => false,
        };
        if heard {
            assert(heard_in_the_leg(all[i as int]));
            return Err(DeclarationError::ConditionalTotality);
        }
        i = i + 1;
    }
    if signature.issues.len() > 0 || signature.destroys.len() > 0 {
        return Err(DeclarationError::SupplyTotality);
    }
    Ok(())
}

/// Whether a signature leaves a handle unmaterialized on some call: a
/// clause is guarded, or the binding takes a guard's verdict.
pub open spec fn leaves_a_handle_absent(signature: MethodSignature, flat: Seq<Clause>) -> bool {
    ||| exists|i: int| 0 <= i < flat.len() && (#[trigger] flat[i]).condition() is Some
    ||| exists|i: int| 0 <= i < signature.abi@.len() && #[trigger] signature.abi@[i] is Guard
}

/// Whether a signature leaves a handle unmaterialized on some call.
fn guards_anything(signature: &MethodSignature, flat: &Vec<&Clause>) -> (r: bool)
    ensures
        r == leaves_a_handle_absent(*signature, flat@.unref()),
{
    let ghost all = flat@.unref();
    let mut i: usize = 0;
    while i < flat.len()
        invariant
            i <= flat.len(),
            all == flat@.unref(),
            forall|j: int| 0 <= j < i ==> (#[trigger] all[j]).condition() is None,
        decreases flat.len() - i,
    {
        assert(all[i as int] == *flat@[i as int]);
        if flat[i].guard().is_some() {
            assert(all[i as int].condition() is Some);
            return true;
        }
        i = i + 1;
    }
    let mut j: usize = 0;
    while j < signature.abi.len()
        invariant
            j <= signature.abi.len(),
            forall|k: int| 0 <= k < all.len() ==> (#[trigger] all[k]).condition() is None,
            forall|k: int| 0 <= k < j ==> #[trigger] signature.abi@[k] !is Guard,
        decreases signature.abi.len() - j,
    {
        match &signature.abi[j] {
            AbiParam::Guard(_) => {
                assert(signature.abi@[j as int] is Guard);
                return true;
            },
            _ => {},
        }
        j = j + 1;
    }
    false
}

/// The verdict on the denomination at `param`.
pub open spec fn param_verdict(signature: MethodSignature, param: int) -> Result<
    (),
    DeclarationError,
> {
    let position = crate::verdict::position(param as nat);
    match signature.denominations@[param] {
        None => Ok(()),
        Some(expr) => if param < signature.params@.len()
            && !signature.params@[param].carries_value() {
            Err(
                DeclarationError::DenominationKind {
                    param: position,
                    kind: signature.params@[param].label(),
                },
            )
        } else {
            match known_class(expr) {
                Some(found) => if found != AddressClass::Resource {
                    Err(DeclarationError::ParamNotAResource { param: position, found })
                } else {
                    Ok(())
                },
                None => Ok(()),
            }
        },
    }
}

/// The verdicts on a signature's denominations, in order.
pub open spec fn param_verdicts(signature: MethodSignature) -> Seq<Result<(), DeclarationError>> {
    Seq::new(signature.denominations@.len(), |i: int| param_verdict(signature, i))
}

/// The verdict on a signature's denominations: a list that covers the
/// parameters or is empty, naming a resource at each position that carries
/// value.
pub open spec fn denominations_verdict(signature: MethodSignature) -> Result<
    (),
    DeclarationError,
> {
    if signature.denominations@.len() > 0 && signature.denominations@.len()
        != signature.params@.len() {
        Err(
            DeclarationError::DenominationArity {
                expected: signature.params@.len() as usize,
                found: signature.denominations@.len() as usize,
            },
        )
    } else {
        crate::verdict::first_refusal(param_verdicts(signature))
    }
}

/// Judge a signature's denominations against the parameters they index.
fn check_denominations(signature: &MethodSignature) -> (r: Result<(), DeclarationError>)
    ensures
        r == denominations_verdict(*signature),
{
    // A denomination is read at the position it indexes, so a list that
    // does not cover the parameters is one whose entries name positions
    // nobody agrees on. An empty list is the method that denominates
    // nothing, which is most of them.
    if signature.denominations.len() > 0 && signature.denominations.len()
        != signature.params.len() {
        return Err(
            DeclarationError::DenominationArity {
                expected: signature.params.len(),
                found: signature.denominations.len(),
            },
        );
    }
    let ghost verdicts = param_verdicts(*signature);
    proof {
        crate::verdict::lemma_all(verdicts);
    }
    let mut i: usize = 0;
    while i < signature.denominations.len()
        invariant
            i <= signature.denominations.len(),
            verdicts == param_verdicts(*signature),
            denominations_verdict(*signature) == crate::verdict::first_refusal(verdicts),
            crate::verdict::first_refusal(verdicts.take(i as int)) is Ok,
        decreases signature.denominations.len() - i,
    {
        proof {
            crate::verdict::lemma_one_more(verdicts, i as int);
        }
        match &signature.denominations[i] {
            None => {},
            Some(expr) => {
                if i < signature.params.len() && !signature.params[i].is_edge() {
                    return Err(
                        DeclarationError::DenominationKind {
                            param: position_of(i),
                            kind: signature.params[i].name(),
                        },
                    );
                }
                // The class verdict a clause denomination gets, at this
                // position.
                match decided_class(expr) {
                    Some(found) => {
                        if found != AddressClass::Resource {
                            return Err(
                                DeclarationError::ParamNotAResource {
                                    param: position_of(i),
                                    found,
                                },
                            );
                        }
                    },
                    None => {},
                }
            },
        }
        i = i + 1;
    }
    proof {
        crate::verdict::lemma_all(verdicts);
    }
    Ok(())
}

/// Whether a clause brings an issued resource into existence: it writes
/// the record of exactly the resource the issuance derives.
pub open spec fn founds(issuance: Issuance, clause: Clause) -> bool {
    match clause {
        Clause::Effect {
            reach: None,
            target: TargetExpr::Point(Expr::ChildKey { owner, slot, material }),
            mode: ModeExpr::Write { .. },
            ..
        } => {
            &&& *owner is SelfAddr
            &&& slot.constant() == Some(SlotId(RESOURCE))
            &&& material@.len() == 1
            &&& is_issued(issuance, material@[0])
        },
        _ => false,
    }
}

/// Whether an expression derives exactly the resource an issuance names.
pub open spec fn is_issued(issuance: Issuance, expr: Expr) -> bool {
    match expr {
        Expr::SelfResource { kind, material, grants } => {
            &&& kind == issuance.kind
            &&& grants.term() == issuance.grants.term()
            &&& material@.len() == 1
            &&& material@[0] matches Expr::Literal(Value::Bytes(mark)) && mark@
                == issuance.mark@
        },
        _ => false,
    }
}

/// Whether any clause brings an issued resource into existence.
pub open spec fn is_founding(issuance: Issuance, flat: Seq<Clause>) -> bool {
    exists|i: int| 0 <= i < flat.len() && founds(issuance, #[trigger] flat[i])
}

/// Whether this frame is the one that brings its issued resource into
/// existence.
///
/// Founding is not minting. A resource's record is written where the
/// resource comes into being and never again, so a supply stated at that
/// one call is the supply the resource comes up holding and the door is
/// what caps it. That is what makes capped supply an absent `Mint` entry
/// rather than an unspellable one.
pub fn founds_its_resource(issuance: &Issuance, signature: &MethodSignature) -> (r: bool)
    ensures
        r == is_founding(*issuance, Clause::preorder(signature.effects@)),
{
    let flat = Clause::flatten(&signature.effects);
    founding(issuance, &flat)
}

/// The same over a preorder already walked.
pub fn founding(issuance: &Issuance, flat: &Vec<&Clause>) -> (r: bool)
    ensures
        r == is_founding(*issuance, flat@.unref()),
{
    let ghost all = flat@.unref();
    let mut i: usize = 0;
    while i < flat.len()
        invariant
            i <= flat.len(),
            all == flat@.unref(),
            forall|j: int| 0 <= j < i ==> !founds(*issuance, #[trigger] all[j]),
        decreases flat.len() - i,
    {
        assert(all[i as int] == *flat@[i as int]);
        if founds_it(issuance, flat[i]) {
            assert(founds(*issuance, all[i as int]));
            return true;
        }
        i = i + 1;
    }
    false
}

/// Whether a clause brings an issued resource into existence.
fn founds_it(issuance: &Issuance, clause: &Clause) -> (r: bool)
    ensures
        r == founds(*issuance, *clause),
{
    match clause {
        Clause::Effect {
            reach: None,
            target: TargetExpr::Point(Expr::ChildKey { owner, slot, material }),
            mode: ModeExpr::Write { .. },
            ..
        } => {
            let own = match &**owner {
                Expr::SelfAddr => true,
                _ => false,
            };
            let record = match slot.fixed() {
                Some(named) => named.0 == RESOURCE,
                None => false,
            };
            own && record && material.len() == 1 && derives_it(issuance, &material[0])
        },
        _ => false,
    }
}

/// Whether an expression derives exactly the resource an issuance names.
fn derives_it(issuance: &Issuance, expr: &Expr) -> (r: bool)
    ensures
        r == is_issued(*issuance, *expr),
{
    match expr {
        Expr::SelfResource { kind, material, grants } => {
            let marked = material.len() == 1 && match &material[0] {
                Expr::Literal(Value::Bytes(mark)) => same_bytes(
                    mark.as_slice(),
                    issuance.mark.as_slice(),
                ),
                _ => false,
            };
            *kind == issuance.kind && grants.same(&issuance.grants) && marked
        },
        _ => false,
    }
}

/// Whether one of a run of issuances carries no mark.
pub open spec fn has_unmarked(issues: Seq<Issuance>) -> bool {
    exists|i: int| 0 <= i < issues.len() && (#[trigger] issues[i]).mark@.len() == 0
}

/// Whether two issuances name one resource.
pub open spec fn names_alike(left: Issuance, right: Issuance) -> bool {
    left.mark@ == right.mark@ && left.kind == right.kind
}

/// Whether two of a run of issuances name one resource.
pub open spec fn has_named_twice(issues: Seq<Issuance>) -> bool {
    exists|i: int, j: int|
        0 <= i < j < issues.len() && names_alike(#[trigger] issues[i], #[trigger] issues[j])
}

/// The verdict on the destroyed parameter at `index`: it carries a value
/// edge, and no earlier one is the same parameter.
pub open spec fn destroy_verdict(signature: MethodSignature, index: int) -> Result<
    (),
    DeclarationError,
> {
    let param = signature.destroys@[index];
    if !(param < signature.params@.len() && signature.params@[param as int].carries_value()) {
        Err(DeclarationError::DestroysNoEdge { param })
    } else if exists|i: int| 0 <= i < index && #[trigger] signature.destroys@[i] == param {
        Err(DeclarationError::DestroyedTwice { param })
    } else {
        Ok(())
    }
}

/// The verdicts on a signature's destroyed parameters, in order.
pub open spec fn destroy_verdicts(signature: MethodSignature) -> Seq<
    Result<(), DeclarationError>,
> {
    Seq::new(signature.destroys@.len(), |i: int| destroy_verdict(signature, i))
}

/// The verdict on one entry an issuance answers to.
pub open spec fn entry_verdict(issuance: Issuance, behaviour: GrantedBehaviour) -> Result<
    (),
    DeclarationError,
> {
    if issuance.grants.granted(behaviour) is None {
        Err(DeclarationError::IssuanceUnadmitted(behaviour))
    } else {
        Ok(())
    }
}

/// The verdicts on the entries an issuance answers to, in order.
pub open spec fn entry_verdicts(issuance: Issuance) -> Seq<Result<(), DeclarationError>> {
    let asked = issuance.direction.entries();
    Seq::new(asked.len(), |i: int| entry_verdict(issuance, asked[i]))
}

/// The verdict on an issuance: it founds the resource, or the resource's
/// own address says who may take each direction it takes.
pub open spec fn issuance_verdict(issuance: Issuance, flat: Seq<Clause>) -> Result<
    (),
    DeclarationError,
> {
    if is_founding(issuance, flat) {
        Ok(())
    } else {
        crate::verdict::first_refusal(entry_verdicts(issuance))
    }
}

/// The verdicts on a signature's issuances, in order.
pub open spec fn issuance_verdicts(issues: Seq<Issuance>, flat: Seq<Clause>) -> Seq<
    Result<(), DeclarationError>,
> {
    Seq::new(issues.len(), |i: int| issuance_verdict(issues[i], flat))
}

/// The verdict on everything a signature says about supply.
pub open spec fn supply_verdict(signature: MethodSignature, flat: Seq<Clause>) -> Result<
    (),
    DeclarationError,
> {
    if has_unmarked(signature.issues@) {
        Err(DeclarationError::UnmarkedIssuance)
    } else if has_named_twice(signature.issues@) {
        Err(DeclarationError::IssuanceNamedTwice)
    } else {
        crate::verdict::followed_by(
            crate::verdict::first_refusal(destroy_verdicts(signature)),
            crate::verdict::first_refusal(issuance_verdicts(signature.issues@, flat)),
        )
    }
}

/// Judge the marks a signature issues under: each names something, and
/// one mark names one grant.
fn check_marks(issues: &Vec<Issuance>) -> (r: Result<(), DeclarationError>)
    ensures
        r == (if has_unmarked(issues@) {
            Err::<(), DeclarationError>(DeclarationError::UnmarkedIssuance)
        } else if has_named_twice(issues@) {
            Err(DeclarationError::IssuanceNamedTwice)
        } else {
            Ok(())
        }),
{
    let mut i: usize = 0;
    while i < issues.len()
        invariant
            i <= issues.len(),
            forall|j: int| 0 <= j < i ==> (#[trigger] issues@[j]).mark@.len() > 0,
        decreases issues.len() - i,
    {
        if issues[i].mark.len() == 0 {
            assert(issues@[i as int].mark@.len() == 0);
            return Err(DeclarationError::UnmarkedIssuance);
        }
        i = i + 1;
    }
    assert(!has_unmarked(issues@));
    let mut j: usize = 0;
    while j < issues.len()
        invariant
            j <= issues.len(),
            !has_unmarked(issues@),
            forall|p: int, q: int|
                0 <= p < q < j ==> !names_alike(#[trigger] issues@[p], #[trigger] issues@[q]),
        decreases issues.len() - j,
    {
        let mut k: usize = 0;
        while k < j
            invariant
                k <= j < issues.len(),
                !has_unmarked(issues@),
                forall|p: int|
                    0 <= p < k ==> !names_alike(#[trigger] issues@[p], issues@[j as int]),
            decreases j - k,
        {
            if same_bytes(issues[k].mark.as_slice(), issues[j].mark.as_slice()) && issues[k].kind
                == issues[j].kind {
                assert(names_alike(issues@[k as int], issues@[j as int]));
                return Err(DeclarationError::IssuanceNamedTwice);
            }
            k = k + 1;
        }
        j = j + 1;
    }
    Ok(())
}

/// Judge a signature's destroyed parameters: each a value edge, and named
/// once, because the grant is per bucket.
fn check_destroys(signature: &MethodSignature) -> (r: Result<(), DeclarationError>)
    ensures
        r == crate::verdict::first_refusal(destroy_verdicts(*signature)),
{
    let ghost verdicts = destroy_verdicts(*signature);
    proof {
        crate::verdict::lemma_all(verdicts);
    }
    let mut i: usize = 0;
    while i < signature.destroys.len()
        invariant
            i <= signature.destroys.len(),
            verdicts == destroy_verdicts(*signature),
            crate::verdict::first_refusal(verdicts.take(i as int)) is Ok,
        decreases signature.destroys.len() - i,
    {
        proof {
            crate::verdict::lemma_one_more(verdicts, i as int);
        }
        let param = signature.destroys[i];
        let edge = (param as usize) < signature.params.len()
            && signature.params[param as usize].is_edge();
        if !edge {
            return Err(DeclarationError::DestroysNoEdge { param });
        }
        let mut k: usize = 0;
        while k < i
            invariant
                k <= i < signature.destroys.len(),
                param == signature.destroys@[i as int],
                param < signature.params@.len(),
                signature.params@[param as int].carries_value(),
                verdicts == destroy_verdicts(*signature),
                verdicts[i as int] is Err ==> crate::verdict::first_refusal(verdicts)
                    == verdicts[i as int],
                forall|p: int| 0 <= p < k ==> #[trigger] signature.destroys@[p] != param,
            decreases i - k,
        {
            if signature.destroys[k] == param {
                assert(signature.destroys@[k as int] == param);
                return Err(DeclarationError::DestroyedTwice { param });
            }
            k = k + 1;
        }
        i = i + 1;
    }
    proof {
        crate::verdict::lemma_all(verdicts);
    }
    Ok(())
}

/// Judge one issuance: a resource is issued only where its own address
/// says who may.
fn check_issuance(issuance: &Issuance, flat: &Vec<&Clause>) -> (r: Result<(), DeclarationError>)
    ensures
        r == issuance_verdict(*issuance, flat@.unref()),
{
    if founding(issuance, flat) {
        return Ok(());
    }
    let asked = issuance.direction.behaviours();
    let ghost verdicts = entry_verdicts(*issuance);
    proof {
        crate::verdict::lemma_all(verdicts);
    }
    let mut i: usize = 0;
    while i < asked.len()
        invariant
            i <= asked.len(),
            asked@ == issuance.direction.entries(),
            verdicts == entry_verdicts(*issuance),
            crate::verdict::first_refusal(verdicts.take(i as int)) is Ok,
            issuance_verdict(*issuance, flat@.unref()) == crate::verdict::first_refusal(verdicts),
        decreases asked.len() - i,
    {
        proof {
            crate::verdict::lemma_one_more(verdicts, i as int);
        }
        match issuance.grants.get(asked[i]) {
            Some(_) => {},
            None => {
                return Err(DeclarationError::IssuanceUnadmitted(asked[i]));
            },
        }
        i = i + 1;
    }
    proof {
        crate::verdict::lemma_all(verdicts);
    }
    Ok(())
}

/// Judge everything a signature says about supply.
fn check_supply(signature: &MethodSignature, flat: &Vec<&Clause>) -> (r: Result<
    (),
    DeclarationError,
>)
    ensures
        r == supply_verdict(*signature, flat@.unref()),
{
    match check_marks(&signature.issues) {
        Ok(()) => {},
        Err(refusal) => {
            return Err(refusal);
        },
    }
    match check_destroys(signature) {
        Ok(()) => {},
        Err(refusal) => {
            return Err(refusal);
        },
    }
    let ghost verdicts = issuance_verdicts(signature.issues@, flat@.unref());
    proof {
        crate::verdict::lemma_all(verdicts);
    }
    let mut i: usize = 0;
    while i < signature.issues.len()
        invariant
            i <= signature.issues.len(),
            verdicts == issuance_verdicts(signature.issues@, flat@.unref()),
            crate::verdict::first_refusal(verdicts.take(i as int)) is Ok,
            supply_verdict(*signature, flat@.unref()) == crate::verdict::first_refusal(verdicts),
        decreases signature.issues.len() - i,
    {
        proof {
            crate::verdict::lemma_one_more(verdicts, i as int);
        }
        match check_issuance(&signature.issues[i], flat) {
            Ok(()) => {},
            Err(refusal) => {
                return Err(refusal);
            },
        }
        i = i + 1;
    }
    proof {
        crate::verdict::lemma_all(verdicts);
    }
    Ok(())
}

/// The resource an output projection names: a non-fungible projection is
/// judged at the resource it names.
pub open spec fn projected(output: Expr) -> Expr {
    match output {
        Expr::NfBucket { resource, .. } => *resource,
        _ => output,
    }
}

/// The verdict on the output at `index`.
pub open spec fn output_verdict(outputs: Seq<Expr>, index: int) -> Result<(), DeclarationError> {
    match known_class(projected(outputs[index])) {
        Some(found) => if found != AddressClass::Resource {
            Err(
                DeclarationError::OutputNotAResource {
                    output: crate::verdict::position(index as nat),
                    found,
                },
            )
        } else {
            Ok(())
        },
        None => Ok(()),
    }
}

/// The verdicts on a signature's outputs, in order.
pub open spec fn output_verdicts(outputs: Seq<Expr>) -> Seq<Result<(), DeclarationError>> {
    Seq::new(outputs.len(), |i: int| output_verdict(outputs, i))
}

/// Refuse an output projection decided to carry a class that names no
/// resource.
///
/// An output projects what an edge carries, so a projection of the wrong
/// class is a method no manifest can consume.
pub fn judge_outputs(outputs: &Vec<Expr>) -> (r: Result<(), DeclarationError>)
    ensures
        r == crate::verdict::first_refusal(output_verdicts(outputs@)),
{
    let ghost verdicts = output_verdicts(outputs@);
    proof {
        crate::verdict::lemma_all(verdicts);
    }
    let mut i: usize = 0;
    while i < outputs.len()
        invariant
            i <= outputs.len(),
            verdicts == output_verdicts(outputs@),
            crate::verdict::first_refusal(verdicts.take(i as int)) is Ok,
        decreases outputs.len() - i,
    {
        proof {
            crate::verdict::lemma_one_more(verdicts, i as int);
        }
        let resource: &Expr = match &outputs[i] {
            Expr::NfBucket { resource, .. } => &**resource,
            expr => expr,
        };
        match decided_class(resource) {
            Some(found) => {
                if found != AddressClass::Resource {
                    return Err(
                        DeclarationError::OutputNotAResource { output: position_of(i), found },
                    );
                }
            },
            None => {},
        }
        i = i + 1;
    }
    proof {
        crate::verdict::lemma_all(verdicts);
    }
    Ok(())
}

/// Whether an access declares a target under `Read` or `Write`, firing
/// whenever a condition under `under` does.
pub open spec fn is_declared(flat: Seq<Clause>, target: Term, under: Option<Box<Expr>>) -> bool {
    exists|i: int| 0 <= i < flat.len() && backs(#[trigger] flat[i], target, under)
}

/// Whether a clause declares a target under `Read` or `Write`, firing
/// whenever a condition under `under` does.
pub open spec fn backs(clause: Clause, target: Term, under: Option<Box<Expr>>) -> bool {
    &&& is_access(clause)
    &&& access_target(clause).term() == target
    &&& reads_or_writes(access_mode(clause))
    &&& fires_with(clause.condition(), under)
}

/// Whether a rule's leaf reads authority the caller names: an argument in
/// a claim, or in the cell a stored rule is read from.
pub open spec fn leaf_names_caller(leaf: RuleLeaf) -> bool {
    match leaf {
        RuleLeaf::Claim(claim) => claim.reads_argument(),
        RuleLeaf::Stored { cell } => cell.reads_argument(),
        RuleLeaf::Presence { .. } => false,
    }
}

/// Whether any leaf of a rule reads authority the caller names.
pub open spec fn names_caller(rule: RuleExpr) -> bool {
    exists|i: int|
        0 <= i < rule.all_leaves().len() && leaf_names_caller(#[trigger] rule.all_leaves()[i])
}

/// The verdict on one leaf of a condition.
pub open spec fn leaf_verdict(
    flat: Seq<Clause>,
    clause: u32,
    under: Option<Box<Expr>>,
    leaf: RuleLeaf,
) -> Result<(), DeclarationError> {
    match leaf {
        RuleLeaf::Presence { target, expect } => if expect == Presence::Either {
            Err(DeclarationError::VacuousCondition { clause })
        } else if !is_declared(flat, target.term(), under) {
            Err(DeclarationError::ConditionUndeclared { clause })
        } else {
            Ok(())
        },
        RuleLeaf::Stored { cell } => if !is_declared(
            flat,
            Term::Node(0, seq![cell.term()]),
            under,
        ) {
            Err(DeclarationError::ConditionUndeclared { clause })
        } else {
            Ok(())
        },
        RuleLeaf::Claim(_) => Ok(()),
    }
}

/// The verdicts on the leaves of a condition, in order.
pub open spec fn leaf_verdicts(
    flat: Seq<Clause>,
    clause: u32,
    under: Option<Box<Expr>>,
    leaves: Seq<RuleLeaf>,
) -> Seq<Result<(), DeclarationError>> {
    Seq::new(leaves.len(), |i: int| leaf_verdict(flat, clause, under, leaves[i]))
}

/// The verdict on the clause at `index`, where it is a condition.
pub open spec fn condition_verdict(flat: Seq<Clause>, index: int) -> Result<
    (),
    DeclarationError,
> {
    let clause = crate::verdict::position(index as nat);
    match flat[index] {
        Clause::Requires { guard, rule } => if names_caller(rule) {
            Err(DeclarationError::CallerNamedCondition { clause })
        } else {
            crate::verdict::first_refusal(leaf_verdicts(flat, clause, guard, rule.all_leaves()))
        },
        _ => Ok(()),
    }
}

/// The verdicts on a declaration's conditions, in order.
pub open spec fn condition_verdicts(flat: Seq<Clause>) -> Seq<Result<(), DeclarationError>> {
    Seq::new(flat.len(), |i: int| condition_verdict(flat, i))
}

/// Whether a clause justifies a mint under `under`: a condition reading a
/// stored rule, firing whenever the mint does.
pub open spec fn justifies(clause: Clause, under: Option<Box<Expr>>) -> bool {
    clause matches Clause::Requires { guard, rule } && reads_stored(rule) && fires_with(
        guard,
        under,
    )
}

/// Whether a target is the cell that is there exactly where a badge is
/// held: the holdings entry for one instance, and the vault for any other
/// claim.
pub open spec fn is_possession(target: TargetExpr, claim: Expr) -> bool {
    match claim {
        Expr::Tuple(parts) => if parts@.len() == 2 {
            is_holdings_entry(target, parts@[0], parts@[1])
        } else {
            is_vault(target, claim)
        },
        _ => is_vault(target, claim),
    }
}

/// Whether a target is the declaring instance's own entry for one instance
/// of a badge.
pub open spec fn is_holdings_entry(target: TargetExpr, badge: Expr, id: Expr) -> bool {
    match target {
        TargetExpr::Entry { owner, collection, material, order } => {
            &&& owner is SelfAddr
            &&& collection.constant() == Some(SlotId(NF_VAULT))
            &&& material@.len() == 1
            &&& material@[0].term() == badge.term()
            &&& order.term() == id.term()
        },
        _ => false,
    }
}

/// Whether a target is the declaring instance's own vault of a badge.
pub open spec fn is_vault(target: TargetExpr, badge: Expr) -> bool {
    match target {
        TargetExpr::Point(Expr::ChildKey { owner, slot, material }) => {
            &&& *owner is SelfAddr
            &&& slot.constant() == Some(SlotId(VAULT))
            &&& material@.len() == 1
            &&& material@[0].term() == badge.term()
        },
        _ => false,
    }
}

/// Whether a clause states that a claim's badge is held, firing whenever a
/// mint under `under` does.
pub open spec fn states_possession(clause: Clause, claim: Expr, under: Option<Box<Expr>>) -> bool {
    &&& asks_presence(clause)
    &&& asked_presence(clause) == Presence::Present
    &&& is_possession(asked_target(clause), claim)
    &&& fires_with(clause.condition(), under)
}

/// The verdict on the clause at `index`, where it is a mint: a stored rule
/// justifies it, and a claim that is not the target's own identity is held.
pub open spec fn mint_verdict(flat: Seq<Clause>, index: int) -> Result<(), DeclarationError> {
    let clause = crate::verdict::position(index as nat);
    match flat[index] {
        Clause::Mints { guard, claim } => if !exists|i: int|
            0 <= i < flat.len() && justifies(#[trigger] flat[i], guard) {
            Err(DeclarationError::UnjustifiedMint { clause })
        } else if claim is SelfAddr {
            Ok(())
        } else if !exists|i: int|
            0 <= i < flat.len() && states_possession(#[trigger] flat[i], claim, guard) {
            Err(DeclarationError::MintUnheld { clause })
        } else {
            Ok(())
        },
        _ => Ok(()),
    }
}

/// The verdicts on a declaration's mints, in order.
pub open spec fn mint_verdicts(flat: Seq<Clause>) -> Seq<Result<(), DeclarationError>> {
    Seq::new(flat.len(), |i: int| mint_verdict(flat, i))
}

/// Whether an access declares a target, or the leaf a cell names, under
/// `Read` or `Write`.
fn declares(flat: &Vec<&Clause>, asked: Asked<'_>, under: &Option<Box<Expr>>) -> (r: bool)
    ensures
        r == is_declared(flat@.unref(), asked.term(), *under),
{
    let ghost all = flat@.unref();
    let mut i: usize = 0;
    while i < flat.len()
        invariant
            i <= flat.len(),
            all == flat@.unref(),
            forall|j: int| 0 <= j < i ==> !backs(#[trigger] all[j], asked.term(), *under),
        decreases flat.len() - i,
    {
        assert(all[i as int] == *flat@[i as int]);
        let found = match flat[i] {
            Clause::Effect { reach: None, guard, target, mode, .. } => {
                let coherent = match mode {
                    ModeExpr::Read => true,
                    ModeExpr::Write { .. } => true,
                    _ => false,
                };
                coherent && asked.is(target) && fires_beside(guard, under)
            },
            _ => false,
        };
        if found {
            assert(backs(all[i as int], asked.term(), *under));
            return true;
        }
        i = i + 1;
    }
    false
}

/// What a condition reads: a target, or the leaf a cell expression names.
#[derive(Clone, Copy)]
enum Asked<'a> {
    /// A target.
    Target(&'a TargetExpr),
    /// The leaf a cell expression names.
    Cell(&'a Expr),
}

impl<'a> Asked<'a> {
    /// What is read, as a term.
    spec fn term(self) -> Term {
        match self {
            Asked::Target(target) => target.term(),
            Asked::Cell(cell) => Term::Node(0, seq![cell.term()]),
        }
    }

    /// Whether what is read is `target`.
    fn is(&self, target: &TargetExpr) -> (r: bool)
        ensures
            r == (target.term() == self.term()),
    {
        match self {
            Asked::Target(asked) => target.same(asked),
            Asked::Cell(cell) => match target {
                TargetExpr::Point(key) => {
                    proof {
                        Term::lemma_one(key.term(), cell.term());
                    }
                    key.same(cell)
                },
                _ => false,
            },
        }
    }
}

/// Whether any leaf of a rule reads authority the caller names.
fn names_caller_authority(rule: &RuleExpr) -> (r: bool)
    ensures
        r == names_caller(*rule),
{
    let leaves = rule.leaves();
    let mut i: usize = 0;
    while i < leaves.len()
        invariant
            i <= leaves.len(),
            leaves@.unref() == rule.all_leaves(),
            forall|j: int| 0 <= j < i ==> !leaf_names_caller(#[trigger] rule.all_leaves()[j]),
        decreases leaves.len() - i,
    {
        assert(leaves@.unref()[i as int] == *leaves@[i as int]);
        let named = match leaves[i] {
            RuleLeaf::Claim(claim) => claim.reads_arguments(),
            RuleLeaf::Stored { cell } => cell.reads_arguments(),
            RuleLeaf::Presence { .. } => false,
        };
        if named {
            assert(leaf_names_caller(rule.all_leaves()[i as int]));
            return true;
        }
        i = i + 1;
    }
    false
}

/// Judge the clause at `index`, where it is a condition.
fn judge_condition(index: usize, flat: &Vec<&Clause>) -> (r: Result<(), DeclarationError>)
    requires
        index < flat@.len(),
    ensures
        r == condition_verdict(flat@.unref(), index as int),
{
    let clause = position_of(index);
    let ghost all = flat@.unref();
    assert(all[index as int] == *flat@[index as int]);
    match flat[index] {
        Clause::Requires { guard, rule } => {
            // An identity a caller names is one that caller can always
            // present, and a caller-named cell is one holding whatever
            // admits them.
            if names_caller_authority(rule) {
                return Err(DeclarationError::CallerNamedCondition { clause });
            }
            let leaves = rule.leaves();
            let ghost verdicts = leaf_verdicts(all, clause, *guard, rule.all_leaves());
            proof {
                crate::verdict::lemma_all(verdicts);
            }
            let mut i: usize = 0;
            while i < leaves.len()
                invariant
                    i <= leaves.len(),
                    all == flat@.unref(),
                    leaves@.unref() == rule.all_leaves(),
                    verdicts == leaf_verdicts(all, clause, *guard, rule.all_leaves()),
                    crate::verdict::first_refusal(verdicts.take(i as int)) is Ok,
                    condition_verdict(all, index as int) == crate::verdict::first_refusal(verdicts),
                decreases leaves.len() - i,
            {
                assert(leaves@.unref()[i as int] == *leaves@[i as int]);
                proof {
                    crate::verdict::lemma_one_more(verdicts, i as int);
                }
                match leaves[i] {
                    RuleLeaf::Presence { target, expect } => {
                        if *expect == Presence::Either {
                            return Err(DeclarationError::VacuousCondition { clause });
                        }
                        if !declares(flat, Asked::Target(&**target), guard) {
                            return Err(DeclarationError::ConditionUndeclared { clause });
                        }
                    },
                    RuleLeaf::Stored { cell } => {
                        if !declares(flat, Asked::Cell(cell), guard) {
                            return Err(DeclarationError::ConditionUndeclared { clause });
                        }
                    },
                    RuleLeaf::Claim(_) => {},
                }
                i = i + 1;
            }
            proof {
                crate::verdict::lemma_all(verdicts);
            }
            Ok(())
        },
        _ => Ok(()),
    }
}

/// The condition pass: every target a condition names is declared as an
/// access, under `Read` or `Write`, which is what makes the judgment
/// coherent, by a clause that fires whenever the condition does. Guards
/// compare syntactically: an unguarded access backs any condition, a
/// guarded one backs a condition under the same guard.
pub fn check_conditions(flat: &Vec<&Clause>) -> (r: Result<(), DeclarationError>)
    ensures
        r == crate::verdict::followed_by(
            crate::verdict::first_refusal(condition_verdicts(flat@.unref())),
            crate::verdict::first_refusal(mint_verdicts(flat@.unref())),
        ),
{
    let ghost all = flat@.unref();
    let ghost verdicts = condition_verdicts(all);
    proof {
        crate::verdict::lemma_all(verdicts);
    }
    let mut i: usize = 0;
    while i < flat.len()
        invariant
            i <= flat.len(),
            all == flat@.unref(),
            verdicts == condition_verdicts(all),
            crate::verdict::first_refusal(verdicts.take(i as int)) is Ok,
        decreases flat.len() - i,
    {
        proof {
            crate::verdict::lemma_one_more(verdicts, i as int);
        }
        match judge_condition(i, flat) {
            Ok(()) => {},
            Err(refusal) => {
                return Err(refusal);
            },
        }
        i = i + 1;
    }
    proof {
        crate::verdict::lemma_all(verdicts);
    }
    check_mints(flat)
}

/// Whether a target is the cell that is there exactly where a badge is
/// held.
fn possesses(target: &TargetExpr, claim: &Expr) -> (r: bool)
    ensures
        r == is_possession(*target, *claim),
{
    match claim {
        // One instance: held when the badge-keyed holdings entry at the
        // id is there.
        Expr::Tuple(parts) => if parts.len() == 2 {
            match target {
                TargetExpr::Entry { owner, collection, material, order } => {
                    let own = match owner {
                        Expr::SelfAddr => true,
                        _ => false,
                    };
                    let holdings = match collection.fixed() {
                        Some(named) => named.0 == NF_VAULT,
                        None => false,
                    };
                    own && holdings && material.len() == 1 && material[0].same(&parts[0])
                        && order.same(&parts[1])
                },
                _ => false,
            }
        } else {
            vaults(target, claim)
        },
        // A fungible badge: held when the badge-keyed vault is.
        _ => vaults(target, claim),
    }
}

/// Whether a target is the declaring instance's own vault of a badge.
fn vaults(target: &TargetExpr, badge: &Expr) -> (r: bool)
    ensures
        r == is_vault(*target, *badge),
{
    match target {
        TargetExpr::Point(Expr::ChildKey { owner, slot, material }) => {
            let own = match &**owner {
                Expr::SelfAddr => true,
                _ => false,
            };
            let vault = match slot.fixed() {
                Some(named) => named.0 == VAULT,
                None => false,
            };
            own && vault && material.len() == 1 && material[0].same(badge)
        },
        _ => false,
    }
}

/// Judge the clause at `index`, where it is a mint.
fn judge_mint(index: usize, flat: &Vec<&Clause>) -> (r: Result<(), DeclarationError>)
    requires
        index < flat@.len(),
    ensures
        r == mint_verdict(flat@.unref(), index as int),
{
    let clause = position_of(index);
    let ghost all = flat@.unref();
    assert(all[index as int] == *flat@[index as int]);
    match flat[index] {
        Clause::Mints { guard, claim } => {
            let mut justified = false;
            let mut held = false;
            let mut i: usize = 0;
            while i < flat.len()
                invariant
                    i <= flat.len(),
                    all == flat@.unref(),
                    justified == exists|j: int| 0 <= j < i && justifies(#[trigger] all[j], *guard),
                    held == exists|j: int|
                        0 <= j < i && states_possession(#[trigger] all[j], *claim, *guard),
                decreases flat.len() - i,
            {
                assert(all[i as int] == *flat@[i as int]);
                match flat[i] {
                    Clause::Requires { guard: under, rule } => {
                        if fires_beside(under, guard) {
                            if holds_stored(rule) {
                                assert(justifies(all[i as int], *guard));
                                justified = true;
                            }
                            match rule {
                                Rule::Require(RuleLeaf::Presence { target, expect }) => {
                                    if *expect == Presence::Present && possesses(target, claim) {
                                        assert(states_possession(all[i as int], *claim, *guard));
                                        held = true;
                                    }
                                },
                                _ => {},
                            }
                        }
                    },
                    _ => {},
                }
                i = i + 1;
            }
            if !justified {
                return Err(DeclarationError::UnjustifiedMint { clause });
            }
            // The target's own identity: the stored rule alone is the
            // justification.
            match claim {
                Expr::SelfAddr => {
                    return Ok(());
                },
                _ => {},
            }
            if !held {
                return Err(DeclarationError::MintUnheld { clause });
            }
            Ok(())
        },
        _ => Ok(()),
    }
}

/// The mint pass: a mint is justified by a condition the same declaration
/// carries. Minting one's own identity takes satisfying one's own stored
/// rule; minting a badge takes that plus holding it, the possession read
/// keyed by the same expressions the mint names, so the claim minted and
/// the thing held are one resource because one expression writes both.
pub fn check_mints(flat: &Vec<&Clause>) -> (r: Result<(), DeclarationError>)
    ensures
        r == crate::verdict::first_refusal(mint_verdicts(flat@.unref())),
{
    let ghost all = flat@.unref();
    let ghost verdicts = mint_verdicts(all);
    proof {
        crate::verdict::lemma_all(verdicts);
    }
    let mut i: usize = 0;
    while i < flat.len()
        invariant
            i <= flat.len(),
            all == flat@.unref(),
            verdicts == mint_verdicts(all),
            crate::verdict::first_refusal(verdicts.take(i as int)) is Ok,
        decreases flat.len() - i,
    {
        proof {
            crate::verdict::lemma_one_more(verdicts, i as int);
        }
        match judge_mint(i, flat) {
            Ok(()) => {},
            Err(refusal) => {
                return Err(refusal);
            },
        }
        i = i + 1;
    }
    proof {
        crate::verdict::lemma_all(verdicts);
    }
    Ok(())
}

/// The verdict on a signature's declarations: agreement first, then what a
/// total mark stands beside, then the denominations, the supply and the
/// outputs, and then every access, every condition and every mint in
/// order.
pub open spec fn declarations_verdict(signature: MethodSignature) -> Result<
    (),
    DeclarationError,
> {
    let flat = Clause::preorder(signature.effects@);
    crate::verdict::followed_by(
        agreement_verdict(flat),
        crate::verdict::followed_by(
            if signature.totality == Totality::Total && leaves_a_handle_absent(signature, flat) {
                Err(DeclarationError::GuardedTotality)
            } else {
                totality_verdict(signature, flat)
            },
            crate::verdict::followed_by(
                denominations_verdict(signature),
                crate::verdict::followed_by(
                    supply_verdict(signature, flat),
                    crate::verdict::followed_by(
                        crate::verdict::first_refusal(output_verdicts(signature.outputs@)),
                        crate::verdict::followed_by(
                            crate::verdict::first_refusal(access_verdicts(flat)),
                            crate::verdict::followed_by(
                                crate::verdict::first_refusal(condition_verdicts(flat)),
                                crate::verdict::first_refusal(mint_verdicts(flat)),
                            ),
                        ),
                    ),
                ),
            ),
        ),
    )
}

/// Every access of a declaration, in order.
fn check_accesses(flat: &Vec<&Clause>) -> (r: Result<(), DeclarationError>)
    ensures
        r == crate::verdict::first_refusal(access_verdicts(flat@.unref())),
{
    let ghost all = flat@.unref();
    let ghost verdicts = access_verdicts(all);
    proof {
        crate::verdict::lemma_all(verdicts);
    }
    let mut i: usize = 0;
    while i < flat.len()
        invariant
            i <= flat.len(),
            all == flat@.unref(),
            verdicts == access_verdicts(all),
            crate::verdict::first_refusal(verdicts.take(i as int)) is Ok,
        decreases flat.len() - i,
    {
        proof {
            crate::verdict::lemma_one_more(verdicts, i as int);
        }
        match judge_access(i, flat) {
            Ok(()) => {},
            Err(refusal) => {
                return Err(refusal);
            },
        }
        i = i + 1;
    }
    proof {
        crate::verdict::lemma_all(verdicts);
    }
    Ok(())
}

/// Judge a signature's declared effects against the prefix and the cells
/// they are the signature's to declare.
///
/// A declaration bounds what execution may touch, and this bounds what a
/// declaration may claim. Whose prefix: an object's cells are reachable by
/// calling it, never by naming them. Which cell under that prefix:
/// everything an engine derives a key for without reading metadata has a
/// shape, and a package reaching one of those leaves reaches it in that
/// shape or not at all.
///
/// # Errors
///
/// [`DeclarationError`]; verdicts are deterministic and identical on every
/// node.
pub fn check_declarations(signature: &MethodSignature) -> (r: Result<(), DeclarationError>)
    ensures
        r == declarations_verdict(*signature),
{
    // The tree is walked once; every judgment below reads this preorder,
    // which is the numbering a clause index names.
    let flat = Clause::flatten(&signature.effects);
    match check_agreement(&flat) {
        Ok(()) => {},
        Err(refusal) => {
            return Err(refusal);
        },
    }
    // Trap freedom for a total leg rests on every handle being
    // materialized from the declared effect set, and an absent capability
    // is precisely a change to that.
    if signature.totality.is_total() && guards_anything(signature, &flat) {
        return Err(DeclarationError::GuardedTotality);
    }
    match check_totality(signature, &flat) {
        Ok(()) => {},
        Err(refusal) => {
            return Err(refusal);
        },
    }
    match check_denominations(signature) {
        Ok(()) => {},
        Err(refusal) => {
            return Err(refusal);
        },
    }
    match check_supply(signature, &flat) {
        Ok(()) => {},
        Err(refusal) => {
            return Err(refusal);
        },
    }
    match judge_outputs(&signature.outputs) {
        Ok(()) => {},
        Err(refusal) => {
            return Err(refusal);
        },
    }
    match check_accesses(&flat) {
        Ok(()) => {},
        Err(refusal) => {
            return Err(refusal);
        },
    }
    check_conditions(&flat)
}

} // verus!
