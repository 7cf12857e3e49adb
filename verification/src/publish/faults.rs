//! What each refusal of a declaration says about the declaration it
//! refuses, read off the clauses themselves, and the two laws that tie the
//! judging to it: a refusal is deserved, and what is accepted deserves none.
use vstd::prelude::*;

use crate::address::AddressClass;
use crate::dsl::{Clause, Expr, ModeExpr, RuleLeaf, SlotRef, TargetExpr};
use crate::effect::{Moves, Presence};
use crate::publish::declaration::DeclarationError;
use crate::resource::GrantedBehaviour;
use crate::rule::Rule;
use crate::signature::{Issuance, Issued, MethodSignature, ParamType, Totality};
use crate::types::{SlotId, Value, KERNEL_SLOT_BASE, PACKAGE_SLOT_BASE};
use crate::vocabulary::{AUTH, CONFIG, HALT, INSTANCE, NF_VAULT, RESOURCE, VAULT};

verus! {

/// Whether a clause under one judgment is declared whenever a clause under
/// another is: it stands under none, or both stand under one expression.
pub open spec fn declared_along(one: Option<Box<Expr>>, other: Option<Box<Expr>>) -> bool {
    match (one, other) {
        (None, _) => true,
        (Some(left), Some(right)) => left.term() == right.term(),
        (Some(_), None) => false,
    }
}

/// The judgment a clause is declared under.
pub open spec fn judgment_on(clause: Clause) -> Option<Box<Expr>> {
    match clause {
        Clause::Effect { guard, .. } => guard,
        Clause::ForEach { guard, .. } => guard,
        Clause::Requires { guard, .. } => guard,
        Clause::Mints { guard, .. } => guard,
    }
}

/// Whether two judgments are each other's negation, so that never both
/// hold.
pub open spec fn never_both(one: Option<Box<Expr>>, other: Option<Box<Expr>>) -> bool {
    match (one, other) {
        (Some(left), Some(right)) => {
            ||| *left matches Expr::Not(inner) && inner.term() == right.term()
            ||| *right matches Expr::Not(inner) && inner.term() == left.term()
        },
        _ => false,
    }
}

/// Whether a target lies under the declaring instance's own prefix.
pub open spec fn at_home(target: TargetExpr) -> bool {
    match target {
        TargetExpr::Point(key) => match key {
            Expr::FreshKey { .. } => true,
            Expr::ChildKey { owner, .. } => *owner is SelfAddr,
            _ => false,
        },
        TargetExpr::Entry { owner, .. } => owner is SelfAddr,
        TargetExpr::Range { owner, .. } => owner is SelfAddr,
    }
}

/// Whether a target is keyed: a child key, or a collection's.
pub open spec fn is_keyed(target: TargetExpr) -> bool {
    target matches TargetExpr::Point(key) ==> key is ChildKey
}

/// The slot a keyed target names.
pub open spec fn slot_at(target: TargetExpr) -> SlotRef {
    match target {
        TargetExpr::Point(key) => key->ChildKey_slot,
        TargetExpr::Entry { collection, .. } => collection,
        TargetExpr::Range { collection, .. } => collection,
    }
}

/// What a keyed target is keyed by, beside its slot.
pub open spec fn key_material(target: TargetExpr) -> Seq<Expr> {
    match target {
        TargetExpr::Point(key) => key->ChildKey_material@,
        TargetExpr::Entry { material, .. } => material@,
        TargetExpr::Range { material, .. } => material@,
    }
}

/// Whether an expression is decided to name an address of a class.
pub open spec fn decided(expr: Expr, class: AddressClass) -> bool {
    match expr {
        Expr::Literal(Value::Address(address)) => address.class == class,
        Expr::SelfAddr => class == AddressClass::Component,
        _ => false,
    }
}

/// Whether a clause requires one thing of one target's presence.
pub open spec fn requires_presence(
    clause: Clause,
    target: TargetExpr,
    under: Option<Box<Expr>>,
    wanted: Presence,
) -> bool {
    &&& clause matches Clause::Requires { guard, rule }
    &&& declared_along(guard, under)
    &&& rule matches Rule::Require(RuleLeaf::Presence { target: asked, expect })
    &&& asked.term() == target.term()
    &&& expect == wanted
}

/// Whether a clause requires anything of one target's presence.
pub open spec fn speaks_of_presence(
    clause: Clause,
    target: TargetExpr,
    under: Option<Box<Expr>>,
) -> bool {
    ||| requires_presence(clause, target, under, Presence::Absent)
    ||| requires_presence(clause, target, under, Presence::Present)
    ||| requires_presence(clause, target, under, Presence::Either)
}

/// Whether the first clause to require anything of a target's presence
/// requires this.
pub open spec fn presence_stands(
    flat: Seq<Clause>,
    target: TargetExpr,
    under: Option<Box<Expr>>,
    wanted: Presence,
) -> bool {
    exists|j: int|
        0 <= j < flat.len() && requires_presence(#[trigger] flat[j], target, under, wanted) && forall|
            k: int,
        |
            0 <= k < j ==> !speaks_of_presence(#[trigger] flat[k], target, under)
}

/// Whether an access of a slot below the package's band has the shape the
/// slot's cell has.
pub open spec fn has_cell_shape(
    flat: Seq<Clause>,
    slot: u16,
    guard: Option<Box<Expr>>,
    target: TargetExpr,
    mode: ModeExpr,
    denomination: Option<Box<Expr>>,
) -> bool {
    let material = key_material(target);
    let held = material.len() == 1 && (denomination matches Some(named) && named.term()
        == material[0].term());
    let created = presence_stands(flat, target, guard, Presence::Absent);
    let stated = created || presence_stands(flat, target, guard, Presence::Present)
        || presence_stands(flat, target, guard, Presence::Either);
    &&& slot == VAULT ==> target is Point && held
    &&& slot == NF_VAULT ==> !(target is Point) && held && (mode is Read || mode is Write)
    &&& slot == CONFIG ==> target is Point && material.len() == 0 && denomination is None && (
    mode is Read || (mode is Write && created))
    &&& slot == AUTH ==> target is Point && material.len() == 0 && denomination is None && (mode
        is Read || mode is Write)
    &&& slot == HALT ==> target is Point && material.len() == 1 && denomination is None && (mode
        is Read || mode is Write)
    &&& slot == RESOURCE ==> target is Point && material.len() == 1 && denomination is None && (
    mode is Read || (mode is Write && created))
    &&& slot == INSTANCE ==> target is Point && material.len() == 2 && denomination is None && (
    mode is Read || (mode is Write && stated))
}

/// Whether a slot below the package's band is one the protocol assigns.
pub open spec fn is_assigned(slot: u16) -> bool {
    slot == VAULT || slot == NF_VAULT || slot == CONFIG || slot == AUTH || slot == HALT || slot
        == RESOURCE || slot == INSTANCE
}

/// Whether a sentence tells the shape a slot's cell has.
pub open spec fn tells_shape(wanted: Seq<char>, slot: u16) -> bool {
    &&& slot == VAULT ==> wanted
        == "holds a fungible balance: one leaf, keyed by the resource it holds, denominated in that resource"@
    &&& slot == NF_VAULT ==> wanted
        == "holds a resource's instances: an interval or one of its entries, keyed by that resource and denominated in it"@
    &&& slot == CONFIG ==> wanted
        == "is the creation-fixed configuration leaf: one leaf, no material, written where absent and never rewritten"@
    &&& slot == AUTH ==> wanted
        == "is the stored authority cell: one leaf, no material, read or rewritten whole"@
    &&& slot == HALT ==> wanted
        == "is a holder's halt flag for one resource: one leaf, keyed by that resource, holding no value"@
    &&& slot == RESOURCE ==> wanted
        == "is a resource's record under its issuer: one leaf, keyed by the resource, written where absent"@
    &&& slot == INSTANCE ==> wanted
        == "is an instance's data under its issuer: one leaf, keyed by the resource and the id, written where the leaf's presence is stated — absent at the mint, present at a rewrite or a retirement"@
}

/// Whether an access deserves a refusal of its own, whatever stands beside
/// it.
pub open spec fn access_at_fault(
    flat: Seq<Clause>,
    guard: Option<Box<Expr>>,
    target: TargetExpr,
    mode: ModeExpr,
    denomination: Option<Box<Expr>>,
    reach: Option<GrantedBehaviour>,
    error: DeclarationError,
) -> bool {
    match error {
        DeclarationError::ForeignPrefix { .. } => reach is None && !at_home(target),
        DeclarationError::SlotWithoutReach { .. } => reach is None && is_keyed(target) && slot_at(
            target,
        ) is Reached,
        DeclarationError::UnreachingBehaviour { behaviour, .. } => reach == Some(behaviour)
            && behaviour != GrantedBehaviour::Freeze && behaviour != GrantedBehaviour::Recall,
        DeclarationError::ReachesItself { .. } => reach is Some && at_home(target),
        DeclarationError::UnkeyedReach { .. } => {
            &&& reach is Some
            &&& is_keyed(target) && key_material(target).len() > 0 ==> {
                let first = key_material(target)[0];
                ||| decided(first, AddressClass::Principal)
                ||| decided(first, AddressClass::Component)
                ||| decided(first, AddressClass::Package)
                ||| decided(first, AddressClass::Native)
            }
        },
        DeclarationError::ReachesAnotherCell { behaviour, .. } => {
            &&& reach == Some(behaviour)
            &&& behaviour == GrantedBehaviour::Freeze ==> slot_at(target) != SlotRef::Fixed(
                SlotId(HALT),
            )
            &&& behaviour == GrantedBehaviour::Recall ==> denomination is None
        },
        DeclarationError::ReservedSlot { slot, .. } => {
            &&& is_keyed(target)
            &&& slot_at(target) == SlotRef::Fixed(SlotId(slot))
            &&& slot >= KERNEL_SLOT_BASE || (slot < PACKAGE_SLOT_BASE && !is_assigned(slot))
        },
        DeclarationError::ProtocolSlotShape { slot, wanted, .. } => {
            &&& tells_shape(wanted@, slot)
            &&& is_keyed(target)
            &&& slot_at(target) == SlotRef::Fixed(SlotId(slot))
            &&& is_assigned(slot)
            &&& !has_cell_shape(flat, slot, guard, target, mode, denomination)
        },
        DeclarationError::UnsupportedAccess { .. } => !(target is Point) && (mode is Delta || mode
            is Reserve),
        DeclarationError::DenominationNotKeyed { .. } => denomination matches Some(held) && !(
        is_keyed(target) && key_material(target).len() > 0 && key_material(target)[0].term()
            == held.term()),
        DeclarationError::NotAResource { found, .. } => denomination matches Some(held) && decided(
            *held,
            found,
        ) && found != AddressClass::Resource,
        DeclarationError::UndenominatedMovement { .. } => denomination is None && (mode is Reserve
            || mode == (ModeExpr::Delta { moves: Moves::Out }) || mode == (ModeExpr::Delta {
            moves: Moves::Both,
        })),
        _ => false,
    }
}

/// Whether a clause is an access of one target under the instance's own
/// authority, reading or rewriting it, and declared whenever a condition
/// is.
pub open spec fn carries_judgment(
    clause: Clause,
    asked: crate::term::Term,
    under: Option<Box<Expr>>,
) -> bool {
    clause matches Clause::Effect { guard, target, mode, reach: None, .. } && target.term() == asked
        && (mode is Read || mode is Write) && declared_along(guard, under)
}

/// Whether a leaf of a condition asks about state no access declares.
pub open spec fn asks_undeclared(
    flat: Seq<Clause>,
    leaf: RuleLeaf,
    under: Option<Box<Expr>>,
) -> bool {
    match leaf {
        RuleLeaf::Presence { target, .. } => forall|j: int|
            0 <= j < flat.len() ==> !carries_judgment(#[trigger] flat[j], target.term(), under),
        RuleLeaf::Stored { cell } => forall|j: int|
            0 <= j < flat.len() ==> !carries_judgment(
                #[trigger] flat[j],
                TargetExpr::Point(cell).term(),
                under,
            ),
        RuleLeaf::Claim(_) => false,
    }
}

/// Whether a clause reads a stored rule.
pub open spec fn hears_a_stored_rule(clause: Clause) -> bool {
    clause matches Clause::Requires { rule, .. } && exists|k: int|
        0 <= k < rule.all_leaves().len() && #[trigger] rule.all_leaves()[k] is Stored
}

/// Whether a target is where the instance holds what a claim names: the
/// entry at the instance's id of its own collection keyed by the badge
/// where the claim is a badge and an id, and its own vault keyed by the
/// claim where it is anything else.
pub open spec fn holds_claim(target: TargetExpr, claim: Expr) -> bool {
    if claim matches Expr::Tuple(parts) && parts@.len() == 2 {
        &&& target matches TargetExpr::Entry { owner, collection, material, order }
        &&& owner is SelfAddr
        &&& collection == SlotRef::Fixed(SlotId(NF_VAULT))
        &&& material@.len() == 1
        &&& material@[0].term() == claim->Tuple_0@[0].term()
        &&& order.term() == claim->Tuple_0@[1].term()
    } else {
        &&& target matches TargetExpr::Point(key)
        &&& key matches Expr::ChildKey { owner, slot, material }
        &&& *owner is SelfAddr
        &&& slot == SlotRef::Fixed(SlotId(VAULT))
        &&& material@.len() == 1
        &&& material@[0].term() == claim.term()
    }
}

/// Whether a clause requires present what a claim names, wherever a mint
/// is declared.
pub open spec fn shows_possession(clause: Clause, claim: Expr, under: Option<Box<Expr>>) -> bool {
    &&& clause matches Clause::Requires { guard, rule }
    &&& declared_along(guard, under)
    &&& rule matches Rule::Require(RuleLeaf::Presence { target, expect })
    &&& expect == Presence::Present
    &&& holds_claim(*target, claim)
}

/// Whether a clause deserves a refusal, for what it says and what stands
/// beside it.
pub open spec fn clause_at_fault(flat: Seq<Clause>, index: int, error: DeclarationError) -> bool {
    match flat[index] {
        Clause::Effect { guard, target, mode, denomination, reach } => access_at_fault(
            flat,
            guard,
            target,
            mode,
            denomination,
            reach,
            error,
        ),
        Clause::ForEach { .. } => false,
        Clause::Requires { guard, rule } => exists|k: int|
            0 <= k < rule.all_leaves().len() && {
                let leaf = #[trigger] rule.all_leaves()[k];
                match error {
                    DeclarationError::CallerNamedCondition { .. } => {
                        ||| leaf matches RuleLeaf::Claim(claim) && claim.reads_argument()
                        ||| leaf matches RuleLeaf::Stored { cell } && cell.reads_argument()
                    },
                    DeclarationError::VacuousCondition { .. } => leaf matches RuleLeaf::Presence {
                        expect,
                        ..
                    } && expect == Presence::Either,
                    DeclarationError::ConditionUndeclared { .. } => asks_undeclared(
                        flat,
                        leaf,
                        guard,
                    ),
                    _ => false,
                }
            },
        Clause::Mints { guard, claim } => match error {
            DeclarationError::UnjustifiedMint { .. } => forall|j: int|
                0 <= j < flat.len() ==> !(hears_a_stored_rule(#[trigger] flat[j])
                    && declared_along(judgment_on(flat[j]), guard)),
            DeclarationError::MintUnheld { .. } => !(claim is SelfAddr) && forall|j: int|
                0 <= j < flat.len() ==> !shows_possession(#[trigger] flat[j], claim, guard),
            _ => false,
        },
    }
}

/// Whether two accesses of one leaf, or of one collection, disagree about
/// whether it holds value.
pub open spec fn disagree_about_contents(one: Clause, other: Clause) -> bool {
    match (one, other) {
        (
            Clause::Effect { target: left, denomination: held, reach: None, .. },
            Clause::Effect { target: right, denomination: carried, reach: None, .. },
        ) => held is Some != carried is Some && match (left, right) {
            (TargetExpr::Point(key), TargetExpr::Point(twin)) => key.term() == twin.term(),
            (TargetExpr::Point(_), _) => false,
            (_, TargetExpr::Point(_)) => false,
            _ => {
                &&& owner_at(left).term() == owner_at(right).term()
                &&& slot_at(left).term() == slot_at(right).term()
                &&& Expr::terms(key_material(left)) == Expr::terms(key_material(right))
            },
        },
        _ => false,
    }
}

/// Whose collection a target names.
pub open spec fn owner_at(target: TargetExpr) -> Expr {
    match target {
        TargetExpr::Point(key) => key,
        TargetExpr::Entry { owner, .. } => owner,
        TargetExpr::Range { owner, .. } => owner,
    }
}

/// Whether two conditions require opposite presences of one target where
/// both may stand.
pub open spec fn disagree_about_presence(one: Clause, other: Clause) -> bool {
    match (one, other) {
        (
            Clause::Requires {
                guard,
                rule: Rule::Require(RuleLeaf::Presence { target: left, expect: wanted }),
            },
            Clause::Requires {
                guard: under,
                rule: Rule::Require(RuleLeaf::Presence { target: right, expect: asked }),
            },
        ) => {
            &&& left.term() == right.term()
            &&& !never_both(guard, under)
            &&& {
                ||| wanted == Presence::Absent && asked == Presence::Present
                ||| wanted == Presence::Present && asked == Presence::Absent
            }
        },
        _ => false,
    }
}

/// Whether a clause writes, where nothing was, the record of what an
/// issuance mints under its own mark.
pub open spec fn writes_record_of(clause: Clause, issuance: Issuance) -> bool {
    &&& clause matches Clause::Effect { target, mode, reach: None, .. }
    &&& mode is Write
    &&& target matches TargetExpr::Point(key)
    &&& key matches Expr::ChildKey { owner, slot, material }
    &&& *owner is SelfAddr
    &&& slot == SlotRef::Fixed(SlotId(RESOURCE))
    &&& material@.len() == 1
    &&& material@[0] matches Expr::SelfResource { kind, material: named, grants }
    &&& kind == issuance.kind
    &&& grants.term() == issuance.grants.term()
    &&& named@.len() == 1
    &&& named@[0] matches Expr::Literal(Value::Bytes(mark))
    &&& mark@ == issuance.mark@
}

/// Whether a resource's own grants hold an entry for a behaviour.
pub open spec fn has_entry(issuance: Issuance, behaviour: GrantedBehaviour) -> bool {
    exists|k: int|
        0 <= k < issuance.grants.listed().len() && (
        #[trigger] issuance.grants.listed()[k]).0 == behaviour
}

/// Whether an issuance takes a direction its resource's grants withhold,
/// and does not found the resource.
pub open spec fn issues_unadmitted(
    issuance: Issuance,
    behaviour: GrantedBehaviour,
    flat: Seq<Clause>,
) -> bool {
    &&& {
        ||| behaviour == GrantedBehaviour::Mint && issuance.direction != Issued::Burned
        ||| behaviour == GrantedBehaviour::Burn && issuance.direction != Issued::Minted
    }
    &&& !has_entry(issuance, behaviour)
    &&& forall|j: int| 0 <= j < flat.len() ==> !writes_record_of(#[trigger] flat[j], issuance)
}

/// Whether a parameter carries value.
pub open spec fn is_edge_at(signature: MethodSignature, param: int) -> bool {
    &&& 0 <= param < signature.params@.len()
    &&& signature.params@[param] == ParamType::Bucket || signature.params@[param]
        == ParamType::NfBucket
}

/// Whether a word is the one a parameter's kind is called by.
pub open spec fn names_kind(word: Seq<char>, param: ParamType) -> bool {
    &&& param is U64 ==> word == "u64"@
    &&& param is U128 ==> word == "u128"@
    &&& param is Resource ==> word == "resource"@
    &&& param is BytesExact ==> word == "bytes"@
    &&& param is Bucket ==> word == "bucket"@
    &&& param is NfBucket ==> word == "nf-bucket"@
}

/// What an output projects: the resource of a non-fungible edge, and
/// itself where it is anything else.
pub open spec fn resource_out(output: Expr) -> Expr {
    if output is NfBucket {
        *output->NfBucket_resource
    } else {
        output
    }
}

/// What a refusal says about the declaration it refuses.
pub open spec fn at_fault(signature: MethodSignature, error: DeclarationError) -> bool {
    let flat = Clause::preorder(signature.effects@);
    match error {
        DeclarationError::PresenceConflict => exists|i: int, j: int|
            0 <= i < j < flat.len() && disagree_about_presence(
                #[trigger] flat[i],
                #[trigger] flat[j],
            ),
        DeclarationError::MixedContents { clause } => exists|i: int, j: int|
            0 <= i < j < flat.len() && crate::verdict::position(j as nat) == clause
                && disagree_about_contents(#[trigger] flat[i], #[trigger] flat[j]),
        DeclarationError::GuardedTotality => signature.totality == Totality::Total && {
            ||| exists|i: int| 0 <= i < flat.len() && judgment_on(#[trigger] flat[i]) is Some
            ||| exists|i: int|
                0 <= i < signature.abi@.len() && #[trigger] signature.abi@[i] is Guard
        },
        DeclarationError::ConditionalTotality => signature.totality == Totality::Total && exists|
            i: int,
        |
            0 <= i < flat.len() && {
                ||| hears_a_stored_rule(#[trigger] flat[i])
                ||| flat[i] matches Clause::Effect { mode, reach: None, .. } && mode is Reserve
            },
        DeclarationError::SupplyTotality => signature.totality == Totality::Total && (
        signature.issues@.len() > 0 || signature.destroys@.len() > 0),
        DeclarationError::DenominationArity { expected, found } => {
            &&& signature.denominations@.len() == found
            &&& signature.params@.len() == expected
            &&& 0 < found
            &&& found != expected
        },
        DeclarationError::DenominationKind { param, kind } => exists|i: int|
            0 <= i < signature.denominations@.len() && crate::verdict::position(i as nat) == param
                && #[trigger] signature.denominations@[i] is Some && i < signature.params@.len()
                && !is_edge_at(signature, i) && names_kind(kind@, signature.params@[i]),
        DeclarationError::ParamNotAResource { param, found } => exists|i: int|
            0 <= i < signature.denominations@.len() && crate::verdict::position(i as nat) == param
                && (#[trigger] signature.denominations@[i] matches Some(expr) && decided(
                expr,
                found,
            )) && found != AddressClass::Resource,
        DeclarationError::UnmarkedIssuance => exists|i: int|
            0 <= i < signature.issues@.len() && (#[trigger] signature.issues@[i]).mark@.len() == 0,
        DeclarationError::IssuanceNamedTwice => exists|i: int, j: int|
            0 <= i < j < signature.issues@.len() && (#[trigger] signature.issues@[i]).mark@ == (
            #[trigger] signature.issues@[j]).mark@ && signature.issues@[i].kind
                == signature.issues@[j].kind,
        DeclarationError::DestroysNoEdge { param } => signature.destroys@.contains(param)
            && !is_edge_at(signature, param as int),
        DeclarationError::DestroyedTwice { param } => exists|i: int, j: int|
            0 <= i < j < signature.destroys@.len() && #[trigger] signature.destroys@[i] == param
                && #[trigger] signature.destroys@[j] == param,
        DeclarationError::IssuanceUnadmitted(behaviour) => exists|i: int|
            0 <= i < signature.issues@.len() && issues_unadmitted(
                #[trigger] signature.issues@[i],
                behaviour,
                flat,
            ),
        DeclarationError::OutputNotAResource { output, found } => exists|i: int|
            0 <= i < signature.outputs@.len() && crate::verdict::position(i as nat) == output
                && decided(resource_out(#[trigger] signature.outputs@[i]), found) && found
                != AddressClass::Resource,
        _ => exists|i: int|
            0 <= i < flat.len() && position_in(error) == Some(crate::verdict::position(i as nat))
                && #[trigger] clause_at_fault(flat, i, error),
    }
}

/// The clause a refusal of one clause names.
pub open spec fn position_in(error: DeclarationError) -> Option<u32> {
    match error {
        DeclarationError::ForeignPrefix { clause } => Some(clause),
        DeclarationError::ConditionUndeclared { clause } => Some(clause),
        DeclarationError::VacuousCondition { clause } => Some(clause),
        DeclarationError::UnreachingBehaviour { clause, .. } => Some(clause),
        DeclarationError::ReachesItself { clause } => Some(clause),
        DeclarationError::ReachesAnotherCell { clause, .. } => Some(clause),
        DeclarationError::SlotWithoutReach { clause } => Some(clause),
        DeclarationError::UnkeyedReach { clause } => Some(clause),
        DeclarationError::UnjustifiedMint { clause } => Some(clause),
        DeclarationError::MintUnheld { clause } => Some(clause),
        DeclarationError::CallerNamedCondition { clause } => Some(clause),
        DeclarationError::ProtocolSlotShape { clause, .. } => Some(clause),
        DeclarationError::DenominationNotKeyed { clause } => Some(clause),
        DeclarationError::UndenominatedMovement { clause } => Some(clause),
        DeclarationError::NotAResource { clause, .. } => Some(clause),
        DeclarationError::ReservedSlot { clause, .. } => Some(clause),
        DeclarationError::UnsupportedAccess { clause } => Some(clause),
        _ => None,
    }
}

/// A run of verdicts that refuses holds the refusal.
pub proof fn lemma_refused_somewhere<E>(verdicts: Seq<Result<(), E>>) -> (at: int)
    requires
        crate::verdict::first_refusal(verdicts) is Err,
    ensures
        0 <= at < verdicts.len(),
        verdicts[at] == crate::verdict::first_refusal(verdicts),
    decreases verdicts.len(),
{
    let before = verdicts.drop_last();
    if crate::verdict::first_refusal(before) is Err {
        let at = lemma_refused_somewhere(before);
        assert(before[at] == verdicts[at]);
        at
    } else {
        verdicts.len() - 1
    }
}

/// The presence an access's target is required to have is what the first
/// condition on it requires.
#[verifier::rlimit(60)]
proof fn lemma_presence_stands(flat: Seq<Clause>, target: TargetExpr, under: Option<Box<Expr>>)
    ensures
        forall|wanted: Presence| #[trigger]
            presence_stands(flat, target, under, wanted) == (
            crate::publish::declaration::stated_presence(flat, target, under) == Some(wanted)),
    decreases flat.len(),
{
    if flat.len() > 0 {
        let before = flat.drop_last();
        let last = flat.len() - 1;
        lemma_presence_stands(before, target, under);
        assert forall|wanted: Presence| #[trigger]
            presence_stands(flat, target, under, wanted) == (
            crate::publish::declaration::stated_presence(flat, target, under) == Some(wanted)) by {
            let stated = crate::publish::declaration::stated_presence(before, target, under);
            assert(presence_stands(before, target, under, wanted) == (stated == Some(wanted)));
            if presence_stands(before, target, under, wanted) {
                let j = choose|j: int|
                    0 <= j < before.len() && requires_presence(
                        #[trigger] before[j],
                        target,
                        under,
                        wanted,
                    ) && forall|k: int|
                        0 <= k < j ==> !speaks_of_presence(#[trigger] before[k], target, under);
                assert(flat[j] == before[j]);
                assert forall|k: int| 0 <= k < j implies !speaks_of_presence(
                    #[trigger] flat[k],
                    target,
                    under,
                ) by {
                    assert(flat[k] == before[k]);
                }
                assert(presence_stands(flat, target, under, wanted));
            } else if presence_stands(flat, target, under, wanted) {
                let j = choose|j: int|
                    0 <= j < flat.len() && requires_presence(
                        #[trigger] flat[j],
                        target,
                        under,
                        wanted,
                    ) && forall|k: int|
                        0 <= k < j ==> !speaks_of_presence(#[trigger] flat[k], target, under);
                if j < before.len() {
                    assert(before[j] == flat[j]);
                    assert forall|k: int| 0 <= k < j implies !speaks_of_presence(
                        #[trigger] before[k],
                        target,
                        under,
                    ) by {
                        assert(flat[k] == before[k]);
                    }
                } else if stated is Some {
                    let said = stated->Some_0;
                    assert(presence_stands(before, target, under, said));
                    let k = choose|k: int|
                        0 <= k < before.len() && requires_presence(
                            #[trigger] before[k],
                            target,
                            under,
                            said,
                        ) && forall|m: int|
                            0 <= m < k ==> !speaks_of_presence(#[trigger] before[m], target, under);
                    assert(flat[k] == before[k]);
                    assert(speaks_of_presence(flat[k], target, under));
                }
            } else if stated is None && requires_presence(flat[last], target, under, wanted) {
                lemma_nothing_said(before, target, under);
                assert forall|k: int| 0 <= k < last implies !speaks_of_presence(
                    #[trigger] flat[k],
                    target,
                    under,
                ) by {
                    assert(flat[k] == before[k]);
                }
            }
        }
    }
}

/// Where no presence is stated, no condition speaks of it.
proof fn lemma_nothing_said(flat: Seq<Clause>, target: TargetExpr, under: Option<Box<Expr>>)
    requires
        crate::publish::declaration::stated_presence(flat, target, under) is None,
    ensures
        forall|k: int|
            0 <= k < flat.len() ==> !speaks_of_presence(#[trigger] flat[k], target, under),
    decreases flat.len(),
{
    if flat.len() > 0 {
        let before = flat.drop_last();
        lemma_nothing_said(before, target, under);
        assert forall|k: int| 0 <= k < flat.len() implies !speaks_of_presence(
            #[trigger] flat[k],
            target,
            under,
        ) by {
            if k < before.len() {
                assert(before[k] == flat[k]);
            }
        }
    }
}

/// An access is refused exactly where it is at fault.
#[verifier::rlimit(60)]
proof fn lemma_access_verdict(flat: Seq<Clause>, index: int)
    requires
        0 <= index < flat.len(),
        flat[index] is Effect,
    ensures
        crate::publish::declaration::access_verdict(flat, index) matches Err(error)
            ==> clause_at_fault(flat, index, error) && position_in(error) == Some(
            crate::verdict::position(index as nat),
        ),
        crate::publish::declaration::access_verdict(flat, index) is Ok ==> forall|
            error: DeclarationError,
        |
            !#[trigger] clause_at_fault(flat, index, error),
{
    match flat[index] {
        Clause::Effect { guard, target, mode, denomination, reach } => {
            lemma_presence_stands(flat, target, guard);
            assert(presence_stands(flat, target, guard, Presence::Absent) == (
            crate::publish::declaration::stated_presence(flat, target, guard) == Some(
                Presence::Absent,
            )));
            assert(presence_stands(flat, target, guard, Presence::Present) == (
            crate::publish::declaration::stated_presence(flat, target, guard) == Some(
                Presence::Present,
            )));
            assert(presence_stands(flat, target, guard, Presence::Either) == (
            crate::publish::declaration::stated_presence(flat, target, guard) == Some(
                Presence::Either,
            )));
            if crate::publish::declaration::access_verdict(flat, index) is Ok {
                assert forall|error: DeclarationError| !#[trigger] clause_at_fault(
                    flat,
                    index,
                    error,
                ) by {
                    if error is ProtocolSlotShape && is_keyed(target) {
                        let required = crate::publish::declaration::stated_presence(
                            flat,
                            target,
                            guard,
                        );
                        assert(required is Some ==> required->Some_0 == Presence::Absent
                            || required->Some_0 == Presence::Present || required->Some_0
                            == Presence::Either);
                        assert(crate::dsl::named_slot(target) == Some(
                            (slot_at(target), key_material(target)),
                        ));
                    }
                }
            }
        },
        _ => {},
    }
}

/// A condition is refused exactly where it is at fault.
proof fn lemma_condition_verdict(flat: Seq<Clause>, index: int)
    requires
        0 <= index < flat.len(),
        flat[index] is Requires,
    ensures
        crate::publish::declaration::condition_verdict(flat, index) matches Err(error)
            ==> clause_at_fault(flat, index, error) && position_in(error) == Some(
            crate::verdict::position(index as nat),
        ),
        crate::publish::declaration::condition_verdict(flat, index) is Ok ==> forall|
            error: DeclarationError,
        |
            !#[trigger] clause_at_fault(flat, index, error),
{
    let place = crate::verdict::position(index as nat);
    match flat[index] {
        Clause::Requires { guard, rule } => {
            let leaves = rule.all_leaves();
            let verdicts = crate::publish::declaration::leaf_verdicts(flat, place, guard, leaves);
            if crate::publish::declaration::names_caller(rule) {
                let k = choose|k: int|
                    0 <= k < leaves.len() && crate::publish::declaration::leaf_names_caller(
                        #[trigger] leaves[k],
                    );
                assert(crate::publish::declaration::leaf_names_caller(rule.all_leaves()[k]));
            } else if crate::verdict::first_refusal(verdicts) is Err {
                let k = lemma_refused_somewhere(verdicts);
                let leaf = rule.all_leaves()[k];
                lemma_declared(flat, leaf, guard);
            } else {
                crate::verdict::lemma_accepted(verdicts);
                assert forall|error: DeclarationError| !#[trigger] clause_at_fault(
                    flat,
                    index,
                    error,
                ) by {
                    assert forall|k: int| 0 <= k < leaves.len() implies {
                        let leaf = #[trigger] rule.all_leaves()[k];
                        &&& !crate::publish::declaration::leaf_names_caller(leaf)
                        &&& crate::publish::declaration::leaf_verdict(flat, place, guard, leaf)
                            is Ok
                        &&& !asks_undeclared(flat, leaf, guard)
                    } by {
                        assert(verdicts[k] is Ok);
                        lemma_declared(flat, rule.all_leaves()[k], guard);
                    }
                }
            }
        },
        _ => {},
    }
}

/// A leaf asks about something undeclared exactly where nothing backs it.
proof fn lemma_declared(flat: Seq<Clause>, leaf: RuleLeaf, under: Option<Box<Expr>>)
    ensures
        match leaf {
            RuleLeaf::Presence { target, .. } => asks_undeclared(flat, leaf, under)
                == !crate::publish::declaration::is_declared(flat, target.term(), under),
            RuleLeaf::Stored { cell } => asks_undeclared(flat, leaf, under)
                == !crate::publish::declaration::is_declared(
                flat,
                crate::term::Term::Node(0, seq![cell.term()]),
                under,
            ),
            RuleLeaf::Claim(_) => !asks_undeclared(flat, leaf, under),
        },
{
    let asked = match leaf {
        RuleLeaf::Presence { target, .. } => target.term(),
        RuleLeaf::Stored { cell } => TargetExpr::Point(cell).term(),
        RuleLeaf::Claim(_) => crate::term::Term::nothing(),
    };
    assert forall|j: int| 0 <= j < flat.len() implies carries_judgment(
        #[trigger] flat[j],
        asked,
        under,
    ) == crate::publish::declaration::backs(flat[j], asked, under) by {}
    if crate::publish::declaration::is_declared(flat, asked, under) {
        let j = choose|j: int|
            0 <= j < flat.len() && crate::publish::declaration::backs(
                #[trigger] flat[j],
                asked,
                under,
            );
        assert(carries_judgment(flat[j], asked, under));
    }
}

/// A mint is refused exactly where it is at fault.
proof fn lemma_mint_verdict(flat: Seq<Clause>, index: int)
    requires
        0 <= index < flat.len(),
        flat[index] is Mints,
    ensures
        crate::publish::declaration::mint_verdict(flat, index) matches Err(error)
            ==> clause_at_fault(flat, index, error) && position_in(error) == Some(
            crate::verdict::position(index as nat),
        ),
        crate::publish::declaration::mint_verdict(flat, index) is Ok ==> forall|
            error: DeclarationError,
        |
            !#[trigger] clause_at_fault(flat, index, error),
{
    match flat[index] {
        Clause::Mints { guard, claim } => {
            assert forall|j: int| 0 <= j < flat.len() implies crate::publish::declaration::justifies(
                #[trigger] flat[j],
                guard,
            ) == (hears_a_stored_rule(flat[j]) && declared_along(judgment_on(flat[j]), guard)) by {
                lemma_stored(flat[j]);
            }
            assert forall|j: int|
                0 <= j < flat.len() implies crate::publish::declaration::states_possession(
                #[trigger] flat[j],
                claim,
                guard,
            ) == shows_possession(flat[j], claim, guard) by {}
        },
        _ => {},
    }
}

/// A clause hears a stored rule exactly where its rule has a stored leaf.
proof fn lemma_stored(clause: Clause)
    ensures
        clause matches Clause::Requires { rule, .. } ==> hears_a_stored_rule(clause)
            == crate::publish::declaration::reads_stored(rule),
        !(clause is Requires) ==> !hears_a_stored_rule(clause),
{
    match clause {
        Clause::Requires { rule, .. } => {
            let leaves = rule.all_leaves();
            if crate::publish::declaration::reads_stored(rule) {
                let k = choose|k: int| 0 <= k < leaves.len() && #[trigger] leaves[k] is Stored;
                assert(rule.all_leaves()[k] is Stored);
            }
        },
        _ => {},
    }
}

/// A resource's grants hold an entry exactly where looking it up finds one.
proof fn lemma_entry(
    entries: Seq<(GrantedBehaviour, crate::resource::GrantRuleExpr)>,
    behaviour: GrantedBehaviour,
)
    ensures
        crate::resource::GrantsExpr::entry_of(entries, behaviour) is Some == (exists|k: int|
            0 <= k < entries.len() && (#[trigger] entries[k]).0 == behaviour),
    decreases entries.len(),
{
    if entries.len() > 0 {
        let rest = entries.skip(1);
        lemma_entry(rest, behaviour);
        if entries[0].0 != behaviour {
            if exists|k: int| 0 <= k < entries.len() && (#[trigger] entries[k]).0 == behaviour {
                let k = choose|k: int|
                    0 <= k < entries.len() && (#[trigger] entries[k]).0 == behaviour;
                assert(rest[k - 1] == entries[k]);
            }
            if exists|k: int| 0 <= k < rest.len() && (#[trigger] rest[k]).0 == behaviour {
                let k = choose|k: int| 0 <= k < rest.len() && (#[trigger] rest[k]).0 == behaviour;
                assert(rest[k] == entries[k + 1]);
            }
        }
    }
}

/// An issuance is refused exactly where a direction it takes is withheld.
proof fn lemma_issuance_verdict(issuance: Issuance, flat: Seq<Clause>)
    ensures
        crate::publish::declaration::issuance_verdict(issuance, flat) matches Err(error)
            ==> (error matches DeclarationError::IssuanceUnadmitted(behaviour)
            && issues_unadmitted(issuance, behaviour, flat)),
        crate::publish::declaration::issuance_verdict(issuance, flat) is Ok ==> forall|
            behaviour: GrantedBehaviour,
        |
            !#[trigger] issues_unadmitted(issuance, behaviour, flat),
{
    assert forall|j: int| 0 <= j < flat.len() implies crate::publish::declaration::founds(
        issuance,
        #[trigger] flat[j],
    ) == writes_record_of(flat[j], issuance) by {}
    lemma_entry(issuance.grants.listed(), GrantedBehaviour::Mint);
    lemma_entry(issuance.grants.listed(), GrantedBehaviour::Burn);
    let verdicts = crate::publish::declaration::entry_verdicts(issuance);
    if crate::publish::declaration::is_founding(issuance, flat) {
        let j = choose|j: int|
            0 <= j < flat.len() && crate::publish::declaration::founds(
                issuance,
                #[trigger] flat[j],
            );
        assert(writes_record_of(flat[j], issuance));
    } else if crate::verdict::first_refusal(verdicts) is Err {
        let k = lemma_refused_somewhere(verdicts);
        assert(verdicts[k] is Err);
    } else {
        crate::verdict::lemma_accepted(verdicts);
        assert(verdicts[0] is Ok);
        assert(issuance.direction == Issued::Either ==> verdicts[1] is Ok);
    }
}

/// A clause whose three judgments all accept it is at no fault.
proof fn lemma_clause_accepted(flat: Seq<Clause>, index: int)
    requires
        0 <= index < flat.len(),
        crate::publish::declaration::access_verdict(flat, index) is Ok,
        crate::publish::declaration::condition_verdict(flat, index) is Ok,
        crate::publish::declaration::mint_verdict(flat, index) is Ok,
    ensures
        forall|error: DeclarationError| !#[trigger] clause_at_fault(flat, index, error),
{
    match flat[index] {
        Clause::Effect { .. } => lemma_access_verdict(flat, index),
        Clause::Requires { .. } => lemma_condition_verdict(flat, index),
        Clause::Mints { .. } => lemma_mint_verdict(flat, index),
        Clause::ForEach { .. } => {},
    }
}

/// Two conditions conflict exactly where they disagree, and two accesses
/// mix contents exactly where they disagree.
proof fn lemma_pair(one: Clause, other: Clause)
    ensures
        crate::publish::declaration::presences_conflict(one, other) == disagree_about_presence(
            one,
            other,
        ),
        crate::publish::declaration::contents_mixed(one, other) == disagree_about_contents(
            one,
            other,
        ),
{
    match (one, other) {
        (
            Clause::Effect { target: left, reach: None, .. },
            Clause::Effect { target: right, reach: None, .. },
        ) => {
            let here = crate::publish::declaration::contents_term(left);
            let there = crate::publish::declaration::contents_term(right);
            if left is Point && right is Point {
                crate::term::Term::lemma_one(left->Point_0.term(), right->Point_0.term());
            } else if !(left is Point) && !(right is Point) {
                crate::term::Term::lemma_three(
                    owner_at(left).term(),
                    slot_at(left).term(),
                    crate::term::Term::Node(0, Expr::terms(key_material(left))),
                    owner_at(right).term(),
                    slot_at(right).term(),
                    crate::term::Term::Node(0, Expr::terms(key_material(right))),
                );
            }
            assert(here->Node_0 == (if left is Point { 0int } else { 1int }));
            assert(there->Node_0 == (if right is Point { 0int } else { 1int }));
        },
        _ => {},
    }
}

/// A refusal is deserved: what it says of the declaration is so.
#[verifier::rlimit(60)]
pub proof fn law_a_refused_declaration_is_at_fault(signature: MethodSignature)
    ensures
        crate::publish::declaration::declarations_verdict(signature) matches Err(error)
            ==> at_fault(signature, error),
{
    let flat = Clause::preorder(signature.effects@);
    let contents = crate::publish::declaration::contents_verdicts(flat);
    let params = crate::publish::declaration::param_verdicts(signature);
    let destroys = crate::publish::declaration::destroy_verdicts(signature);
    let issuances = crate::publish::declaration::issuance_verdicts(signature.issues@, flat);
    let outputs = crate::publish::declaration::output_verdicts(signature.outputs@);
    let accesses = crate::publish::declaration::access_verdicts(flat);
    let conditions = crate::publish::declaration::condition_verdicts(flat);
    let mints = crate::publish::declaration::mint_verdicts(flat);
    if crate::publish::declaration::has_presence_conflict(flat) {
        let (i, j) = choose|i: int, j: int|
            0 <= i < j < flat.len() && crate::publish::declaration::presences_conflict(
                #[trigger] flat[i],
                #[trigger] flat[j],
            );
        lemma_pair(flat[i], flat[j]);
        assert(disagree_about_presence(flat[i], flat[j]));
    } else if crate::verdict::first_refusal(contents) is Err {
        let j = lemma_refused_somewhere(contents);
        let i = choose|i: int|
            0 <= i < j && crate::publish::declaration::contents_mixed(
                #[trigger] flat[i],
                flat[j],
            );
        lemma_pair(flat[i], flat[j]);
        assert(disagree_about_contents(flat[i], flat[j]));
    } else if signature.totality == Totality::Total
        && crate::publish::declaration::leaves_a_handle_absent(signature, flat) {
    } else if crate::publish::declaration::totality_verdict(signature, flat) is Err {
        if exists|i: int|
            0 <= i < flat.len() && crate::publish::declaration::heard_in_the_leg(
                #[trigger] flat[i],
            ) {
            let i = choose|i: int|
                0 <= i < flat.len() && crate::publish::declaration::heard_in_the_leg(
                    #[trigger] flat[i],
                );
            lemma_stored(flat[i]);
            assert(hears_a_stored_rule(flat[i]) || flat[i] is Effect);
        }
    } else if crate::publish::declaration::denominations_verdict(signature) is Err {
        if !(signature.denominations@.len() > 0 && signature.denominations@.len()
            != signature.params@.len()) {
            let i = lemma_refused_somewhere(params);
            assert(signature.denominations@[i] is Some);
        } else {
            assert(signature.denominations.len() == signature.denominations@.len());
            assert(signature.params.len() == signature.params@.len());
        }
    } else if crate::publish::declaration::supply_verdict(signature, flat) is Err {
        if crate::publish::declaration::has_unmarked(signature.issues@) {
        } else if crate::publish::declaration::has_named_twice(signature.issues@) {
            let (i, j) = choose|i: int, j: int|
                0 <= i < j < signature.issues@.len() && crate::publish::declaration::names_alike(
                    #[trigger] signature.issues@[i],
                    #[trigger] signature.issues@[j],
                );
            assert(signature.issues@[i].mark@ == signature.issues@[j].mark@);
        } else if crate::verdict::first_refusal(destroys) is Err {
            let i = lemma_refused_somewhere(destroys);
            assert(signature.destroys@[i] == signature.destroys@[i]);
        } else {
            let i = lemma_refused_somewhere(issuances);
            lemma_issuance_verdict(signature.issues@[i], flat);
        }
    } else if crate::verdict::first_refusal(outputs) is Err {
        let i = lemma_refused_somewhere(outputs);
        assert(resource_out(signature.outputs@[i]) == crate::publish::declaration::projected(
            signature.outputs@[i],
        ));
    } else if crate::verdict::first_refusal(accesses) is Err {
        let i = lemma_refused_somewhere(accesses);
        lemma_access_verdict(flat, i);
    } else if crate::verdict::first_refusal(conditions) is Err {
        let i = lemma_refused_somewhere(conditions);
        lemma_condition_verdict(flat, i);
    } else if crate::verdict::first_refusal(mints) is Err {
        let i = lemma_refused_somewhere(mints);
        lemma_mint_verdict(flat, i);
    }
}

/// What is accepted deserves no refusal: nothing any of them says is so.
#[verifier::rlimit(40)]
pub proof fn law_an_accepted_declaration_is_at_no_fault(
    signature: MethodSignature,
    error: DeclarationError,
)
    requires
        crate::publish::declaration::declarations_verdict(signature) is Ok,
    ensures
        !at_fault(signature, error),
{
    let flat = Clause::preorder(signature.effects@);
    let contents = crate::publish::declaration::contents_verdicts(flat);
    let params = crate::publish::declaration::param_verdicts(signature);
    let destroys = crate::publish::declaration::destroy_verdicts(signature);
    let issuances = crate::publish::declaration::issuance_verdicts(signature.issues@, flat);
    let outputs = crate::publish::declaration::output_verdicts(signature.outputs@);
    let accesses = crate::publish::declaration::access_verdicts(flat);
    let conditions = crate::publish::declaration::condition_verdicts(flat);
    let mints = crate::publish::declaration::mint_verdicts(flat);
    crate::verdict::lemma_accepted(contents);
    crate::verdict::lemma_accepted(params);
    crate::verdict::lemma_accepted(destroys);
    crate::verdict::lemma_accepted(issuances);
    crate::verdict::lemma_accepted(outputs);
    crate::verdict::lemma_accepted(accesses);
    crate::verdict::lemma_accepted(conditions);
    crate::verdict::lemma_accepted(mints);
    assert forall|i: int, j: int| 0 <= i < j < flat.len() implies !disagree_about_presence(
        #[trigger] flat[i],
        #[trigger] flat[j],
    ) && !disagree_about_contents(flat[i], flat[j]) by {
        lemma_pair(flat[i], flat[j]);
        assert(contents[j] is Ok);
        assert(crate::publish::declaration::contents_verdict(flat, j) is Ok);
    }
    assert forall|i: int| 0 <= i < flat.len() implies !(#[trigger] clause_at_fault(
        flat,
        i,
        error,
    )) by {
        assert(accesses[i] is Ok);
        assert(conditions[i] is Ok);
        assert(mints[i] is Ok);
        lemma_clause_accepted(flat, i);
    }
    assert forall|i: int| 0 <= i < flat.len() && signature.totality == Totality::Total implies {
        &&& !hears_a_stored_rule(#[trigger] flat[i])
        &&& !(flat[i] matches Clause::Effect { mode, reach: None, .. } && mode is Reserve)
    } by {
        lemma_stored(flat[i]);
        assert(!crate::publish::declaration::heard_in_the_leg(flat[i]));
    }
    assert forall|i: int| 0 <= i < signature.issues@.len() implies forall|
        behaviour: GrantedBehaviour,
    |
        !issues_unadmitted(#[trigger] signature.issues@[i], behaviour, flat) by {
        assert(issuances[i] is Ok);
        lemma_issuance_verdict(signature.issues@[i], flat);
    }
    match error {
        DeclarationError::DenominationKind { .. } => {
            assert forall|i: int| 0 <= i < signature.denominations@.len() && i
                < signature.params@.len() && #[trigger] signature.denominations@[i] is Some implies
                is_edge_at(signature, i) by {
                assert(params[i] is Ok);
            }
        },
        DeclarationError::ParamNotAResource { found, .. } => {
            assert forall|i: int| 0 <= i < signature.denominations@.len() implies !((
            #[trigger] signature.denominations@[i] matches Some(expr) && decided(expr, found))
                && found != AddressClass::Resource) by {
                assert(params[i] is Ok);
            }
        },
        DeclarationError::IssuanceNamedTwice => {
            if at_fault(signature, error) {
                let (i, j) = choose|i: int, j: int|
                    0 <= i < j < signature.issues@.len() && (
                    #[trigger] signature.issues@[i]).mark@ == (
                    #[trigger] signature.issues@[j]).mark@ && signature.issues@[i].kind
                        == signature.issues@[j].kind;
                assert(crate::publish::declaration::names_alike(
                    signature.issues@[i],
                    signature.issues@[j],
                ));
            }
        },
        DeclarationError::DestroysNoEdge { param } => {
            if signature.destroys@.contains(param) {
                let i = choose|i: int|
                    0 <= i < signature.destroys@.len() && signature.destroys@[i] == param;
                assert(destroys[i] is Ok);
            }
        },
        DeclarationError::DestroyedTwice { param } => {
            assert forall|i: int, j: int| 0 <= i < j < signature.destroys@.len() implies !(
            #[trigger] signature.destroys@[i] == param && #[trigger] signature.destroys@[j]
                == param) by {
                assert(destroys[j] is Ok);
            }
        },
        DeclarationError::OutputNotAResource { found, .. } => {
            assert forall|i: int| 0 <= i < signature.outputs@.len() implies !(decided(
                resource_out(#[trigger] signature.outputs@[i]),
                found,
            ) && found != AddressClass::Resource) by {
                assert(outputs[i] is Ok);
            }
        },
        _ => {},
    }
}

} // verus!
