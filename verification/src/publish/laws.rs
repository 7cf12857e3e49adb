//! What an accepted signature is known to be, stated of every signature
//! the gates accept.
use vstd::prelude::*;

use crate::dsl::{Clause, Expr, RuleLeaf, SlotRef, TargetExpr, MAX_EFFECTS_PER_SIGNATURE};
use crate::effect::Presence;
use crate::publish::bounds::Tally;
use crate::publish::declaration::DeclarationError;
use crate::rule::Rule;
use crate::signature::{AbiParam, MethodSignature, Totality, MAX_MINTS_PER_SIGNATURE};
use crate::term::Term;
use crate::types::{SlotId, KERNEL_SLOT_BASE};
use crate::vocabulary::{NF_VAULT, VAULT};

verus! {

/// Whether every judgment of the declaration gate accepts a signature.
pub open spec fn declarations_accept(signature: MethodSignature) -> bool {
    crate::publish::declaration::declarations_verdict(signature) is Ok
}

/// A declaration is accepted exactly where each of its passes accepts it.
proof fn lemma_passes(signature: MethodSignature)
    requires
        declarations_accept(signature),
    ensures
        ({
            let flat = Clause::preorder(signature.effects@);
            &&& crate::publish::declaration::agreement_verdict(flat) is Ok
            &&& !(signature.totality == Totality::Total
                && crate::publish::declaration::leaves_a_handle_absent(signature, flat))
            &&& crate::publish::declaration::totality_verdict(signature, flat) is Ok
            &&& crate::publish::declaration::denominations_verdict(signature) is Ok
            &&& crate::publish::declaration::supply_verdict(signature, flat) is Ok
            &&& crate::verdict::first_refusal(
                crate::publish::declaration::access_verdicts(flat),
            ) is Ok
            &&& crate::verdict::first_refusal(
                crate::publish::declaration::condition_verdicts(flat),
            ) is Ok
            &&& crate::verdict::first_refusal(
                crate::publish::declaration::mint_verdicts(flat),
            ) is Ok
        }),
{
}

/// In an accepted declaration, two presence conditions on one target that
/// can both fire never ask opposite things of it.
pub proof fn law_presence_conditions_agree(signature: MethodSignature, i: int, j: int)
    requires
        declarations_accept(signature),
        0 <= i < j < Clause::preorder(signature.effects@).len(),
    ensures
        !crate::publish::declaration::presences_conflict(
            Clause::preorder(signature.effects@)[i],
            Clause::preorder(signature.effects@)[j],
        ),
{
    lemma_passes(signature);
    let flat = Clause::preorder(signature.effects@);
    if crate::publish::declaration::presences_conflict(flat[i], flat[j]) {
        assert(crate::publish::declaration::has_presence_conflict(flat));
    }
}

/// In an accepted declaration, two accesses of one cell agree on whether
/// it holds value.
pub proof fn law_cells_hold_one_thing(signature: MethodSignature, i: int, j: int)
    requires
        declarations_accept(signature),
        0 <= i < j < Clause::preorder(signature.effects@).len(),
    ensures
        !crate::publish::declaration::contents_mixed(
            Clause::preorder(signature.effects@)[i],
            Clause::preorder(signature.effects@)[j],
        ),
{
    lemma_passes(signature);
    let flat = Clause::preorder(signature.effects@);
    let verdicts = crate::publish::declaration::contents_verdicts(flat);
    crate::verdict::lemma_accepted(verdicts);
    assert(verdicts[j] is Ok);
    if crate::publish::declaration::contents_mixed(flat[i], flat[j]) {
        assert(crate::publish::declaration::contents_verdict(flat, j) is Err);
    }
}

/// An accepted total method guards nothing, reads no stored rule, reserves
/// nothing, and changes no supply.
pub proof fn law_total_methods_carry_no_verdict(signature: MethodSignature)
    requires
        declarations_accept(signature),
        signature.totality == Totality::Total,
    ensures
        forall|i: int|
            0 <= i < Clause::preorder(signature.effects@).len() ==> {
                let clause = #[trigger] Clause::preorder(signature.effects@)[i];
                clause.condition() is None && !crate::publish::declaration::heard_in_the_leg(clause)
            },
        signature.issues@.len() == 0,
        signature.destroys@.len() == 0,
{
    lemma_passes(signature);
    let flat = Clause::preorder(signature.effects@);
    assert forall|i: int| 0 <= i < flat.len() implies {
        let clause = #[trigger] flat[i];
        clause.condition() is None && !crate::publish::declaration::heard_in_the_leg(clause)
    } by {
        if flat[i].condition() is Some {
            assert(crate::publish::declaration::leaves_a_handle_absent(signature, flat));
        }
    }
}

/// In an accepted declaration, every access under the instance's own
/// authority names its own prefix, at a slot written down and outside the
/// kernel's band.
pub proof fn law_accesses_stay_home(signature: MethodSignature, i: int)
    requires
        declarations_accept(signature),
        0 <= i < Clause::preorder(signature.effects@).len(),
        crate::publish::declaration::is_access(Clause::preorder(signature.effects@)[i]),
    ensures
        ({
            let target = crate::publish::declaration::access_target(
                Clause::preorder(signature.effects@)[i],
            );
            &&& crate::publish::declaration::own_prefix(target)
            &&& crate::dsl::named_slot(target) matches Some((slot, _)) ==> (slot.constant() matches Some(
                named,
            ) && named.0 < KERNEL_SLOT_BASE)
        }),
{
    lemma_passes(signature);
    let flat = Clause::preorder(signature.effects@);
    let verdicts = crate::publish::declaration::access_verdicts(flat);
    crate::verdict::lemma_accepted(verdicts);
    assert(verdicts[i] is Ok);
    assert(crate::publish::declaration::access_verdict(flat, i) is Ok);
}

/// In an accepted declaration, a denominated access is keyed first by the
/// resource it moves.
pub proof fn law_value_cells_are_keyed_by_what_they_hold(signature: MethodSignature, i: int)
    requires
        declarations_accept(signature),
        0 <= i < Clause::preorder(signature.effects@).len(),
    ensures
        Clause::preorder(signature.effects@)[i] matches Clause::Effect {
            target,
            denomination: Some(held),
            ..
        } ==> crate::publish::declaration::denomination_is_key(target, *held),
{
    lemma_passes(signature);
    let flat = Clause::preorder(signature.effects@);
    let verdicts = crate::publish::declaration::access_verdicts(flat);
    crate::verdict::lemma_accepted(verdicts);
    assert(verdicts[i] is Ok);
    assert(crate::publish::declaration::access_verdict(flat, i) is Ok);
}

/// In an accepted declaration, every leaf of every condition that reads
/// state reads something an access beside it declares, and none requires
/// nothing of a leaf.
pub proof fn law_conditions_are_declared(signature: MethodSignature, i: int, k: int)
    requires
        declarations_accept(signature),
        0 <= i < Clause::preorder(signature.effects@).len(),
    ensures
        Clause::preorder(signature.effects@)[i] matches Clause::Requires { guard, rule } ==> 0 <= k
            < rule.all_leaves().len() ==> crate::publish::declaration::leaf_verdict(
            Clause::preorder(signature.effects@),
            crate::verdict::position(i as nat),
            guard,
            rule.all_leaves()[k],
        ) is Ok,
{
    lemma_passes(signature);
    let flat = Clause::preorder(signature.effects@);
    let verdicts = crate::publish::declaration::condition_verdicts(flat);
    crate::verdict::lemma_accepted(verdicts);
    assert(verdicts[i] is Ok);
    assert(crate::publish::declaration::condition_verdict(flat, i) is Ok);
    match flat[i] {
        Clause::Requires { guard, rule } => {
            let leaves = crate::publish::declaration::leaf_verdicts(
                flat,
                crate::verdict::position(i as nat),
                guard,
                rule.all_leaves(),
            );
            crate::verdict::lemma_accepted(leaves);
            if 0 <= k < rule.all_leaves().len() {
                assert(leaves[k] is Ok);
            }
        },
        _ => {},
    }
}

/// No expression is its own negation.
proof fn lemma_not_its_own_negation(expr: Expr)
    ensures
        expr matches Expr::Not(inner) ==> inner.term() != expr.term(),
{
    match expr {
        Expr::Not(inner) => {
            reveal(Expr::inside);
            expr.lemma_term();
            let whole = expr.term();
            assert(expr.inside() =~= seq![*inner]);
            assert(Expr::terms(expr.inside())[0] == inner.term());
            let kids = whole->Node_1;
            assert(kids[1] == Term::Node(0, Expr::terms(expr.inside())));
            let held = kids[1]->Node_1;
            assert(held[0] == inner.term());
            assert(decreases_to!(whole => kids[1]));
            assert(decreases_to!(kids[1] => held[0]));
        },
        _ => {},
    }
}

/// Two guards that each fire whenever one access does are not each
/// other's negation.
proof fn lemma_firing_together_is_not_complementary(
    left: Option<Box<Expr>>,
    right: Option<Box<Expr>>,
    under: Option<Box<Expr>>,
)
    requires
        crate::publish::declaration::fires_with(left, under),
        crate::publish::declaration::fires_with(right, under),
    ensures
        !crate::publish::declaration::are_complementary(left, right),
{
    match (left, right) {
        (Some(one), Some(two)) => {
            assert(one.term() == two.term());
            lemma_not_its_own_negation(*one);
            lemma_not_its_own_negation(*two);
        },
        _ => {},
    }
}

/// What an accepted declaration says about a leaf where an access fires is
/// one answer: every condition on the access's target that fires whenever
/// it does asks what the first of them asks.
pub proof fn law_one_answer_about_presence(
    signature: MethodSignature,
    target: TargetExpr,
    under: Option<Box<Expr>>,
    i: int,
)
    requires
        declarations_accept(signature),
        0 <= i < Clause::preorder(signature.effects@).len(),
        crate::publish::declaration::asks_presence(Clause::preorder(signature.effects@)[i]),
        crate::publish::declaration::asked_target(
            Clause::preorder(signature.effects@)[i],
        ).term() == target.term(),
        crate::publish::declaration::fires_with(
            Clause::preorder(signature.effects@)[i].condition(),
            under,
        ),
    ensures
        crate::publish::declaration::stated_presence(
            Clause::preorder(signature.effects@),
            target,
            under,
        ) == Some(
            crate::publish::declaration::asked_presence(Clause::preorder(signature.effects@)[i]),
        ),
{
    let flat = Clause::preorder(signature.effects@);
    let first = lemma_first_answer(flat, target, under, i);
    lemma_asks_something(signature, first);
    lemma_asks_something(signature, i);
    if first < i {
        law_presence_conditions_agree(signature, first, i);
        lemma_firing_together_is_not_complementary(
            flat[first].condition(),
            flat[i].condition(),
            under,
        );
    }
}

/// A condition matching an access has a first among them, no later than
/// it, and that one is the answer.
proof fn lemma_first_answer(
    flat: Seq<Clause>,
    target: TargetExpr,
    under: Option<Box<Expr>>,
    i: int,
) -> (first: int)
    requires
        0 <= i < flat.len(),
        crate::publish::declaration::asks_presence(flat[i]),
        crate::publish::declaration::asked_target(flat[i]).term() == target.term(),
        crate::publish::declaration::fires_with(flat[i].condition(), under),
    ensures
        0 <= first <= i,
        crate::publish::declaration::asks_presence(flat[first]),
        crate::publish::declaration::asked_target(flat[first]).term() == target.term(),
        crate::publish::declaration::fires_with(flat[first].condition(), under),
        crate::publish::declaration::stated_presence(flat, target, under) == Some(
            crate::publish::declaration::asked_presence(flat[first]),
        ),
    decreases flat.len(),
{
    let before = flat.drop_last();
    if i < before.len() {
        assert(before[i] == flat[i]);
        let first = lemma_first_answer(before, target, under, i);
        assert(before[first] == flat[first]);
        first
    } else if crate::publish::declaration::stated_presence(before, target, under) is Some {
        let first = lemma_answer_stands_somewhere(before, target, under);
        assert(before[first] == flat[first]);
        first
    } else {
        i
    }
}

/// An answer is what some condition asks.
proof fn lemma_answer_stands_somewhere(
    flat: Seq<Clause>,
    target: TargetExpr,
    under: Option<Box<Expr>>,
) -> (first: int)
    requires
        crate::publish::declaration::stated_presence(flat, target, under) is Some,
    ensures
        0 <= first < flat.len(),
        crate::publish::declaration::asks_presence(flat[first]),
        crate::publish::declaration::asked_target(flat[first]).term() == target.term(),
        crate::publish::declaration::fires_with(flat[first].condition(), under),
        crate::publish::declaration::stated_presence(flat, target, under) == Some(
            crate::publish::declaration::asked_presence(flat[first]),
        ),
    decreases flat.len(),
{
    let before = flat.drop_last();
    if crate::publish::declaration::stated_presence(before, target, under) is Some {
        let first = lemma_answer_stands_somewhere(before, target, under);
        assert(before[first] == flat[first]);
        first
    } else {
        flat.len() - 1
    }
}

/// A presence condition of an accepted declaration asks something.
proof fn lemma_asks_something(signature: MethodSignature, i: int)
    requires
        declarations_accept(signature),
        0 <= i < Clause::preorder(signature.effects@).len(),
        crate::publish::declaration::asks_presence(Clause::preorder(signature.effects@)[i]),
    ensures
        crate::publish::declaration::asked_presence(Clause::preorder(signature.effects@)[i])
            != Presence::Either,
{
    law_conditions_are_declared(signature, i, 0);
    let clause = Clause::preorder(signature.effects@)[i];
    match clause {
        Clause::Requires { guard, rule } => {
            assert(rule.all_leaves().len() == 1);
        },
        _ => {},
    }
}

/// In an accepted declaration, every mint stands beside a condition that
/// reads a stored rule wherever the mint fires.
pub proof fn law_mints_are_justified(signature: MethodSignature, i: int)
    requires
        declarations_accept(signature),
        0 <= i < Clause::preorder(signature.effects@).len(),
    ensures
        Clause::preorder(signature.effects@)[i] matches Clause::Mints { guard, .. } ==> exists|j: int|
            0 <= j < Clause::preorder(signature.effects@).len()
                && crate::publish::declaration::justifies(
                #[trigger] Clause::preorder(signature.effects@)[j],
                guard,
            ),
{
    lemma_passes(signature);
    let flat = Clause::preorder(signature.effects@);
    let verdicts = crate::publish::declaration::mint_verdicts(flat);
    crate::verdict::lemma_accepted(verdicts);
    assert(verdicts[i] is Ok);
    assert(crate::publish::declaration::mint_verdict(flat, i) is Ok);
}

/// In an accepted declaration, a minted claim of a badge and an id stands
/// beside a condition, declared whenever the mint is, that requires
/// present exactly the entry at that id of the instance's own holdings of
/// that badge.
pub proof fn law_a_minted_instance_is_held(signature: MethodSignature, i: int)
    requires
        declarations_accept(signature),
        0 <= i < Clause::preorder(signature.effects@).len(),
    ensures
        Clause::preorder(signature.effects@)[i] matches Clause::Mints {
            guard,
            claim: Expr::Tuple(parts),
        } ==> parts@.len() == 2 ==> exists|j: int|
            0 <= j < Clause::preorder(signature.effects@).len() && (
            #[trigger] Clause::preorder(signature.effects@)[j] matches Clause::Requires {
                guard: under,
                rule: Rule::Require(RuleLeaf::Presence { target, expect: Presence::Present }),
            } && (under is None || (under matches Some(one) && guard matches Some(other)
                && one.term() == other.term())) && (*target matches TargetExpr::Entry {
                owner,
                collection,
                material,
                order,
            } && owner is SelfAddr && collection == SlotRef::Fixed(SlotId(NF_VAULT))
                && material@.len() == 1 && material@[0].term() == parts@[0].term() && order.term()
                == parts@[1].term())),
{
    let flat = Clause::preorder(signature.effects@);
    let place = crate::verdict::position(i as nat);
    let unheld = DeclarationError::MintUnheld { clause: place };
    crate::publish::faults::law_an_accepted_declaration_is_at_no_fault(signature, unheld);
    assert(!crate::publish::faults::clause_at_fault(flat, i, unheld));
}

/// In an accepted declaration, a minted claim that is neither the instance
/// itself nor a badge and an id stands beside a condition, declared
/// whenever the mint is, that requires present the instance's own vault of
/// that claim.
pub proof fn law_a_minted_badge_is_held(signature: MethodSignature, i: int)
    requires
        declarations_accept(signature),
        0 <= i < Clause::preorder(signature.effects@).len(),
    ensures
        Clause::preorder(signature.effects@)[i] matches Clause::Mints { guard, claim } ==> !(claim
            is SelfAddr) && !(claim matches Expr::Tuple(parts) && parts@.len() == 2) ==> exists|
            j: int,
        |
            0 <= j < Clause::preorder(signature.effects@).len() && (
            #[trigger] Clause::preorder(signature.effects@)[j] matches Clause::Requires {
                guard: under,
                rule: Rule::Require(RuleLeaf::Presence { target, expect: Presence::Present }),
            } && (under is None || (under matches Some(one) && guard matches Some(other)
                && one.term() == other.term())) && (*target matches TargetExpr::Point(
                Expr::ChildKey { owner, slot, material },
            ) && *owner is SelfAddr && slot == SlotRef::Fixed(SlotId(VAULT)) && material@.len()
                == 1 && material@[0].term() == claim.term())),
{
    let flat = Clause::preorder(signature.effects@);
    let place = crate::verdict::position(i as nat);
    let unheld = DeclarationError::MintUnheld { clause: place };
    crate::publish::faults::law_an_accepted_declaration_is_at_no_fault(signature, unheld);
    assert(!crate::publish::faults::clause_at_fault(flat, i, unheld));
}

/// In an accepted binding, no two handles borrow one site.
pub proof fn law_sites_are_borrowed_once(signature: MethodSignature, i: int, j: int)
    requires
        crate::publish::abi::abi_verdict(signature) is Ok,
        0 <= i < j < signature.abi@.len(),
    ensures
        signature.abi@[j] matches AbiParam::Handle { clause, site }
            ==> !crate::publish::abi::borrows(signature.abi@[i], clause, site),
{
    let verdicts = crate::publish::abi::binding_verdicts(signature);
    crate::verdict::lemma_accepted(verdicts);
    assert(verdicts[j] is Ok);
    assert(crate::publish::abi::binding_verdict(signature, j) is Ok);
}

/// In an accepted binding, every bucket is carried once at most.
pub proof fn law_buckets_are_carried_once(signature: MethodSignature, param: int)
    requires
        crate::publish::abi::abi_verdict(signature) is Ok,
        0 <= param < signature.params@.len(),
    ensures
        crate::publish::abi::carried_by(signature.abi@, param) <= 1,
{
    let verdicts = crate::publish::abi::carried_verdicts(signature);
    crate::verdict::lemma_accepted(verdicts);
    assert(verdicts[param] is Ok);
}

/// How many clauses of a run are not loops.
pub open spec fn counted(clauses: Seq<Clause>) -> nat
    decreases clauses.len(),
{
    if clauses.len() == 0 {
        0
    } else {
        counted(clauses.drop_last()) + if clauses.last() is ForEach {
            0nat
        } else {
            1nat
        }
    }
}

/// How many clauses of a run mint.
pub open spec fn minting(clauses: Seq<Clause>) -> nat
    decreases clauses.len(),
{
    if clauses.len() == 0 {
        0
    } else {
        minting(clauses.drop_last()) + if clauses.last() is Mints {
            1nat
        } else {
            0nat
        }
    }
}

/// Counting a run in two parts counts it.
pub proof fn lemma_counts_add(left: Seq<Clause>, right: Seq<Clause>)
    ensures
        counted(left + right) == counted(left) + counted(right),
        minting(left + right) == minting(left) + minting(right),
    decreases right.len(),
{
    if right.len() == 0 {
        assert(left + right =~= left);
    } else {
        assert((left + right).drop_last() =~= left + right.drop_last());
        lemma_counts_add(left, right.drop_last());
    }
}

/// An accepted walk counts exactly the clauses of the preorder, and is
/// under both ceilings where it started under them.
proof fn lemma_tally_counts(clauses: Seq<Clause>, depth: nat, tally: Tally)
    requires
        crate::publish::bounds::clauses_tally(clauses, depth, tally) is Ok,
        tally.declared <= MAX_EFFECTS_PER_SIGNATURE,
        tally.minted <= MAX_MINTS_PER_SIGNATURE,
    ensures
        ({
            let reached = crate::publish::bounds::clauses_tally(clauses, depth, tally)->Ok_0;
            let flat = Clause::preorder(clauses);
            &&& reached.declared == tally.declared + counted(flat)
            &&& reached.minted == tally.minted + minting(flat)
            &&& reached.declared <= MAX_EFFECTS_PER_SIGNATURE
            &&& reached.minted <= MAX_MINTS_PER_SIGNATURE
        }),
    decreases clauses,
{
    if clauses.len() > 0 {
        let before = clauses.drop_last();
        let last = clauses.last();
        assert(decreases_to!(clauses => before));
        lemma_tally_counts(before, depth, tally);
        let so_far = crate::publish::bounds::clauses_tally(before, depth, tally)->Ok_0;
        lemma_counts_add(Clause::preorder(before), last.walk());
        assert(crate::publish::bounds::clause_tally(last, depth, so_far) is Ok);
        assert(seq![last].drop_last() =~= Seq::empty());
        assert(counted(Seq::empty()) == 0 && minting(Seq::empty()) == 0);
        assert(seq![last].last() == last);
        match last {
            Clause::ForEach { body, .. } => {
                assert(decreases_to!(clauses => clauses[clauses.len() - 1]));
                lemma_tally_counts(body@, depth + 1, so_far);
                lemma_counts_add(seq![last], Clause::preorder(body@));
                assert(counted(seq![last]) == 0);
                assert(minting(seq![last]) == 0);
            },
            _ => {
                assert(counted(seq![last]) == 1);
            },
        }
    }
}

/// A signature inside its bounds declares no more clauses than one may,
/// and mints no more claims, loops counted by what is in them.
pub proof fn law_bounded_signatures_are_counted(signature: MethodSignature)
    requires
        crate::publish::bounds::bounds_verdict(signature) is Ok,
    ensures
        counted(Clause::preorder(signature.effects@)) <= MAX_EFFECTS_PER_SIGNATURE,
        minting(Clause::preorder(signature.effects@)) <= MAX_MINTS_PER_SIGNATURE,
{
    lemma_tally_counts(signature.effects@, 0, crate::publish::bounds::nothing_counted());
}

/// A method declaring a component's seal and nothing else is a seal, and
/// its declaration is accepted.
pub proof fn law_a_seal_is_accepted(signature: MethodSignature)
    requires
        crate::publish::declaration::are_seal_clauses(signature.effects@),
        signature.totality != Totality::Total,
        signature.issues@.len() == 0,
        signature.destroys@.len() == 0,
        signature.denominations@.len() == 0,
        signature.outputs@.len() == 0,
    ensures
        crate::publish::declaration::is_seal(signature),
        declarations_accept(signature),
{
    let clauses = signature.effects@;
    let flat = Clause::preorder(clauses);
    assert(clauses.drop_last() =~= seq![clauses[0]]);
    assert(seq![clauses[0]].drop_last() =~= Seq::empty());
    reveal_with_fuel(Clause::preorder, 3);
    assert(flat =~= clauses);
    assert(crate::publish::declaration::writes_config(flat[1]));
    let target = crate::publish::declaration::access_target(clauses[1]);
    assert(crate::publish::declaration::agreement_verdict(flat) is Ok) by {
        let verdicts = crate::publish::declaration::contents_verdicts(flat);
        crate::verdict::lemma_accepted(verdicts);
    }
    assert(crate::publish::declaration::stated_presence(flat, target, None) == Some(
        Presence::Absent,
    )) by {
        reveal_with_fuel(crate::publish::declaration::stated_presence, 3);
        assert(flat.drop_last() =~= seq![clauses[0]]);
    }
    assert(crate::publish::declaration::access_verdict(flat, 0) is Ok);
    assert(crate::publish::declaration::access_verdict(flat, 1) is Ok);
    crate::verdict::lemma_accepted(crate::publish::declaration::access_verdicts(flat));
    assert(crate::publish::declaration::backs(flat[1], target.term(), None));
    match clauses[0] {
        Clause::Requires { guard, rule } => {
            assert(rule.all_leaves() =~= seq![rule->Require_0]);
            let leaves = crate::publish::declaration::leaf_verdicts(flat, 0, guard, rule.all_leaves());
            assert(leaves[0] is Ok);
            crate::verdict::lemma_accepted(leaves);
        },
        _ => {},
    }
    assert(crate::publish::declaration::condition_verdict(flat, 0) is Ok);
    assert(crate::publish::declaration::condition_verdict(flat, 1) is Ok);
    crate::verdict::lemma_accepted(crate::publish::declaration::condition_verdicts(flat));
    crate::verdict::lemma_accepted(crate::publish::declaration::mint_verdicts(flat));
    crate::verdict::lemma_accepted(crate::publish::declaration::param_verdicts(signature));
    crate::verdict::lemma_accepted(crate::publish::declaration::destroy_verdicts(signature));
    crate::verdict::lemma_accepted(
        crate::publish::declaration::issuance_verdicts(signature.issues@, flat),
    );
    crate::verdict::lemma_accepted(
        crate::publish::declaration::output_verdicts(signature.outputs@),
    );
}

} // verus!
