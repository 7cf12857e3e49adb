//! What a signature inside its bounds is: every expression of it fits, and
//! there are no more of anything than a signature may hold.
use vstd::prelude::*;

use crate::dsl::{Clause, Expr, ModeExpr, RuleExpr, RuleLeaf, TargetExpr, MAX_EFFECTS_PER_SIGNATURE};
use crate::publish::bounds::{SignatureBoundsError, Tally};
use crate::resource::{GrantSubject, GrantedBehaviour, GrantsExpr};
use crate::rule::Rule;
use crate::signature::{
    AbiParam, MethodSignature, MAX_ISSUANCES_PER_SIGNATURE, MAX_MINTS_PER_SIGNATURE,
};

verus! {

/// Whether an expression standing alone is inside its bounds.
pub open spec fn fits(expr: Expr) -> bool {
    crate::publish::bounds::expr_verdict(expr, 0) is Ok
}

/// Whether every expression of a run fits.
pub open spec fn all_fit(exprs: Seq<Expr>) -> bool {
    forall|i: int| 0 <= i < exprs.len() ==> fits(#[trigger] exprs[i])
}

/// Whether every expression naming a target fits.
pub open spec fn target_fits(target: TargetExpr) -> bool {
    match target {
        TargetExpr::Point(key) => fits(key),
        TargetExpr::Entry { owner, material, order, .. } => fits(owner) && all_fit(material@)
            && fits(order),
        TargetExpr::Range { owner, material, lo, hi, cap, .. } => fits(owner) && all_fit(
            material@,
        ) && fits(lo) && fits(hi) && fits(cap),
    }
}

/// Whether every expression of a leaf fits.
pub open spec fn leaf_fits(leaf: RuleLeaf) -> bool {
    match leaf {
        RuleLeaf::Claim(claim) => fits(claim),
        RuleLeaf::Stored { cell } => fits(cell),
        RuleLeaf::Presence { target, .. } => target_fits(*target),
    }
}

/// Whether every expression a clause says itself fits, whatever its body
/// says.
pub open spec fn clause_fits(clause: Clause) -> bool {
    &&& crate::publish::faults::judgment_on(clause) matches Some(judgment) ==> fits(*judgment)
    &&& match clause {
        Clause::Effect { target, mode, denomination, .. } => {
            &&& target_fits(target)
            &&& mode matches ModeExpr::Reserve(amount) ==> fits(amount)
            &&& denomination matches Some(held) ==> fits(*held)
        },
        Clause::ForEach { list, .. } => fits(list),
        Clause::Requires { rule, .. } => crate::publish::bounds::rule_verdict(rule) is Ok,
        Clause::Mints { claim, .. } => fits(claim),
    }
}

/// How deep the clauses of a run nest: not at all where none of them is a
/// loop.
pub open spec fn nests(clauses: Seq<Clause>) -> nat
    decreases clauses,
{
    if clauses.len() == 0 {
        0
    } else {
        let before = nests(clauses.drop_last());
        let last: nat = match clauses.last() {
            Clause::ForEach { body, .. } => 1 + nests(body@),
            _ => 0,
        };
        if before > last {
            before
        } else {
            last
        }
    }
}

/// An expression is inside its bounds at a depth exactly where the depth
/// is no more than an expression may reach, a literal in it is no deeper
/// or wider than a value may be, a list or a tuple in it is no longer, a
/// resource it names grants inside its bounds, and everything it holds is
/// inside its bounds one deeper.
pub proof fn law_an_expression_fits_where_its_parts_do(expr: Expr, depth: nat)
    ensures
        crate::publish::bounds::expr_verdict(expr, depth) is Ok <==> {
            &&& depth <= crate::dsl::MAX_EXPR_DEPTH
            &&& expr matches Expr::Literal(value) ==> value.depth()
                <= crate::types::MAX_VALUE_DEPTH && value.within_width()
            &&& expr matches Expr::List(elements) ==> elements@.len()
                <= crate::types::MAX_VALUE_ITEMS
            &&& expr matches Expr::Tuple(elements) ==> elements@.len()
                <= crate::types::MAX_VALUE_ITEMS
            &&& expr matches Expr::SelfResource { grants, .. }
                ==> crate::publish::bounds::grants_verdict(grants) is Ok
            &&& forall|i: int|
                0 <= i < expr.inside().len() ==> crate::publish::bounds::expr_verdict(
                    #[trigger] expr.inside()[i],
                    depth + 1,
                ) is Ok
        },
{
    let verdicts = crate::publish::bounds::inside_verdicts(expr, depth + 1);
    crate::verdict::lemma_accepted(verdicts);
    assert forall|i: int| 0 <= i < verdicts.len() implies (#[trigger] verdicts[i] is Ok)
        == crate::publish::bounds::expr_verdict(expr.inside()[i], depth + 1) is Ok by {}
    if crate::publish::bounds::expr_verdict(expr, depth) is Ok {
        assert forall|i: int| 0 <= i < expr.inside().len() implies crate::publish::bounds::expr_verdict(
            #[trigger] expr.inside()[i],
            depth + 1,
        ) is Ok by {
            assert(verdicts[i] is Ok);
        }
    }
}

/// A run of expressions is accepted exactly where each fits.
proof fn lemma_run_fits(exprs: Seq<Expr>)
    ensures
        crate::verdict::first_refusal(crate::publish::bounds::expr_verdicts(exprs, 0)) is Ok
            == all_fit(exprs),
{
    let verdicts = crate::publish::bounds::expr_verdicts(exprs, 0);
    crate::verdict::lemma_accepted(verdicts);
    if all_fit(exprs) {
        assert forall|i: int| 0 <= i < verdicts.len() implies #[trigger] verdicts[i] is Ok by {
            assert(fits(exprs[i]));
        }
    } else if crate::verdict::first_refusal(verdicts) is Ok {
        assert forall|i: int| 0 <= i < exprs.len() implies fits(#[trigger] exprs[i]) by {
            assert(verdicts[i] is Ok);
        }
    }
}

/// A target is accepted exactly where it fits.
proof fn lemma_target_fits(target: TargetExpr)
    ensures
        crate::publish::bounds::target_verdict(target) is Ok == target_fits(target),
{
    match target {
        TargetExpr::Entry { material, .. } => lemma_run_fits(material@),
        TargetExpr::Range { material, .. } => lemma_run_fits(material@),
        _ => {},
    }
}

/// A clause that is no loop is counted on exactly where it fits and leaves
/// the counts under their ceilings.
proof fn lemma_clause_fits(clause: Clause, depth: nat, tally: Tally)
    requires
        !(clause is ForEach),
    ensures
        crate::publish::bounds::clause_tally(clause, depth, tally) is Ok == (clause_fits(clause)
            && tally.declared + 1 <= MAX_EFFECTS_PER_SIGNATURE && (clause is Mints ==> tally.minted
            + 1 <= MAX_MINTS_PER_SIGNATURE) && tally.minted <= MAX_MINTS_PER_SIGNATURE),
        crate::publish::bounds::clause_tally(clause, depth, tally) is Ok
            ==> crate::publish::bounds::clause_tally(clause, depth, tally)->Ok_0 == (Tally {
            declared: tally.declared + 1,
            minted: tally.minted + if clause is Mints {
                1nat
            } else {
                0nat
            },
        }),
{
    match clause {
        Clause::Effect { target, .. } => lemma_target_fits(target),
        _ => {},
    }
}

/// A run of clauses is counted through exactly where every clause of its
/// preorder fits, it nests no deeper than it may, and the counts stay
/// under their ceilings.
#[verifier::spinoff_prover]
#[verifier::rlimit(80)]
proof fn lemma_clauses_fit(clauses: Seq<Clause>, depth: nat, tally: Tally)
    requires
        tally.declared <= MAX_EFFECTS_PER_SIGNATURE,
        tally.minted <= MAX_MINTS_PER_SIGNATURE,
    ensures
        ({
            let flat = Clause::preorder(clauses);
            let counted = crate::publish::bounds::clauses_tally(clauses, depth, tally);
            &&& counted is Ok == {
                &&& depth + nests(clauses) <= crate::dsl::MAX_CLAUSE_DEPTH
                &&& forall|k: int| 0 <= k < flat.len() ==> clause_fits(#[trigger] flat[k])
                &&& tally.declared + crate::publish::laws::counted(flat)
                    <= MAX_EFFECTS_PER_SIGNATURE
                &&& tally.minted + crate::publish::laws::minting(flat) <= MAX_MINTS_PER_SIGNATURE
            }
            &&& counted is Ok ==> counted->Ok_0 == (Tally {
                declared: tally.declared + crate::publish::laws::counted(flat),
                minted: tally.minted + crate::publish::laws::minting(flat),
            })
        }),
    decreases clauses,
{
    let flat = Clause::preorder(clauses);
    if clauses.len() > 0 {
        let before = clauses.drop_last();
        let last = clauses.last();
        let head = Clause::preorder(before);
        assert(decreases_to!(clauses => before));
        assert(decreases_to!(clauses => clauses[clauses.len() - 1]));
        lemma_clauses_fit(before, depth, tally);
        crate::publish::laws::lemma_counts_add(head, last.walk());
        assert(flat =~= head + last.walk());
        assert(seq![last].drop_last() =~= Seq::empty());
        assert(crate::publish::laws::counted(Seq::empty()) == 0);
        assert(crate::publish::laws::minting(Seq::empty()) == 0);
        assert(seq![last].last() == last);
        let own_counted = crate::publish::laws::counted(seq![last]);
        let own_minted = crate::publish::laws::minting(seq![last]);
        assert(own_counted == (if last is ForEach { 0nat } else { 1nat }));
        assert(own_minted == (if last is Mints { 1nat } else { 0nat }));
        assert forall|k: int| 0 <= k < head.len() implies flat[k] == head[k] by {}
        assert forall|k: int| 0 <= k < last.walk().len() implies flat[head.len() + k]
            == last.walk()[k] by {}
        let so_far = crate::publish::bounds::clauses_tally(before, depth, tally);
        match last {
            Clause::ForEach { guard, list, body } => {
                let inner = Clause::preorder(body@);
                crate::publish::laws::lemma_counts_add(seq![last], inner);
                if so_far is Ok {
                    lemma_clauses_fit(body@, depth + 1, so_far->Ok_0);
                }
                assert(last.walk() =~= seq![last] + inner);
                assert(last.walk()[0] == last);
                assert forall|k: int| 0 <= k < inner.len() implies last.walk()[k + 1]
                    == inner[k] by {}
            },
            _ => {
                assert(last.walk() =~= seq![last]);
                if so_far is Ok {
                    lemma_clause_fits(last, depth, so_far->Ok_0);
                }
            },
        }
        lemma_run_of_fits(flat, head, last.walk());
        match last {
            Clause::ForEach { body, .. } => {
                lemma_run_of_fits(last.walk(), seq![last], Clause::preorder(body@));
                lemma_one_fits(last);
            },
            _ => {
                lemma_one_fits(last);
            },
        }
    }
}

/// Whether every clause of a run fits.
spec fn run_fits(clauses: Seq<Clause>) -> bool {
    forall|k: int| 0 <= k < clauses.len() ==> clause_fits(#[trigger] clauses[k])
}

/// A run of one fits where it does.
proof fn lemma_one_fits(clause: Clause)
    ensures
        run_fits(seq![clause]) == clause_fits(clause),
{
    assert(seq![clause][0] == clause);
}

/// A run in two parts fits where both do.
proof fn lemma_run_of_fits(whole: Seq<Clause>, left: Seq<Clause>, right: Seq<Clause>)
    requires
        whole == left + right,
    ensures
        run_fits(whole) == (run_fits(left) && run_fits(right)),
{
    if run_fits(whole) {
        assert forall|k: int| 0 <= k < left.len() implies clause_fits(#[trigger] left[k]) by {
            assert(whole[k] == left[k]);
        }
        assert forall|k: int| 0 <= k < right.len() implies clause_fits(#[trigger] right[k]) by {
            assert(whole[left.len() + k] == right[k]);
        }
    }
}

/// A signature is inside its bounds exactly where every expression of it
/// fits, it issues no more than it may and each issuance grants inside its
/// bounds, its clauses nest no deeper than they may, and it declares and
/// mints no more than it may, loops counted by what is in them.
#[verifier::rlimit(60)]
pub proof fn law_a_signature_is_in_bounds_where_its_parts_are(signature: MethodSignature)
    ensures
        crate::publish::bounds::bounds_verdict(signature) is Ok <==> {
            let flat = Clause::preorder(signature.effects@);
            &&& all_fit(signature.outputs@)
            &&& forall|i: int|
                0 <= i < signature.denominations@.len() ==> (
                #[trigger] signature.denominations@[i] matches Some(expr) ==> fits(expr))
            &&& forall|i: int|
                0 <= i < signature.abi@.len() ==> (
                #[trigger] signature.abi@[i] matches AbiParam::Derived(expr) ==> fits(expr))
            &&& signature.issues@.len() <= MAX_ISSUANCES_PER_SIGNATURE
            &&& forall|i: int|
                0 <= i < signature.issues@.len() ==> crate::publish::bounds::grants_verdict(
                    (#[trigger] signature.issues@[i]).grants,
                ) is Ok
            &&& nests(signature.effects@) <= crate::dsl::MAX_CLAUSE_DEPTH
            &&& forall|k: int| 0 <= k < flat.len() ==> clause_fits(#[trigger] flat[k])
            &&& crate::publish::laws::counted(flat) <= MAX_EFFECTS_PER_SIGNATURE
            &&& crate::publish::laws::minting(flat) <= MAX_MINTS_PER_SIGNATURE
        },
{
    lemma_run_fits(signature.outputs@);
    lemma_clauses_fit(
        signature.effects@,
        0,
        crate::publish::bounds::nothing_counted(),
    );
    let denominations = crate::publish::bounds::denomination_verdicts(signature.denominations@);
    let derived = crate::publish::bounds::abi_verdicts(signature.abi@);
    let issuances = crate::publish::bounds::issuance_verdicts(signature.issues@);
    crate::verdict::lemma_accepted(denominations);
    crate::verdict::lemma_accepted(derived);
    crate::verdict::lemma_accepted(issuances);
    assert forall|i: int| 0 <= i < signature.denominations@.len() implies (
    #[trigger] denominations[i] is Ok) == (signature.denominations@[i] matches Some(expr) ==> fits(
        expr,
    )) by {}
    assert forall|i: int| 0 <= i < signature.abi@.len() implies (#[trigger] derived[i] is Ok) == (
    signature.abi@[i] matches AbiParam::Derived(expr) ==> fits(expr)) by {}
    assert forall|i: int| 0 <= i < signature.issues@.len() implies (#[trigger] issuances[i] is Ok)
        == crate::publish::bounds::grants_verdict(signature.issues@[i].grants) is Ok by {}
    if crate::verdict::first_refusal(denominations) is Ok {
        assert forall|i: int| 0 <= i < signature.denominations@.len() implies (
        #[trigger] signature.denominations@[i] matches Some(expr) ==> fits(expr)) by {
            assert(denominations[i] is Ok);
        }
    }
    if crate::verdict::first_refusal(derived) is Ok {
        assert forall|i: int| 0 <= i < signature.abi@.len() implies (
        #[trigger] signature.abi@[i] matches AbiParam::Derived(expr) ==> fits(expr)) by {
            assert(derived[i] is Ok);
        }
    }
    if crate::verdict::first_refusal(issuances) is Ok {
        assert forall|i: int|
            0 <= i < signature.issues@.len() implies crate::publish::bounds::grants_verdict(
            (#[trigger] signature.issues@[i]).grants,
        ) is Ok by {
            assert(issuances[i] is Ok);
        }
    }
}

/// A declared rule is inside its bounds exactly where it is inside a
/// rule's caps and each of its branches is, and a leaf where what it asks
/// of fits.
pub proof fn law_a_rule_fits_where_its_branches_do(rule: RuleExpr)
    ensures
        crate::publish::bounds::rule_verdict(rule) is Ok <==> {
            &&& rule.is_within_caps(0)
            &&& match rule {
                Rule::Require(leaf) => leaf_fits(leaf),
                Rule::CountOf { rules, .. } => forall|i: int|
                    0 <= i < rules@.len() ==> crate::publish::bounds::rule_verdict(
                        #[trigger] rules@[i],
                    ) is Ok,
            }
        },
{
    match rule {
        Rule::Require(leaf) => {
            match leaf {
                RuleLeaf::Presence { target, .. } => lemma_target_fits(*target),
                _ => {},
            }
        },
        Rule::CountOf { rules, .. } => {
            let verdicts = crate::publish::bounds::rule_verdicts(rules@);
            crate::verdict::lemma_accepted(verdicts);
            assert forall|i: int| 0 <= i < rules@.len() implies (#[trigger] verdicts[i])
                == crate::publish::bounds::rule_verdict(rules@[i]) by {}
            if crate::verdict::first_refusal(verdicts) is Ok {
                assert forall|i: int|
                    0 <= i < rules@.len() implies crate::publish::bounds::rule_verdict(
                    #[trigger] rules@[i],
                ) is Ok by {
                    assert(verdicts[i] is Ok);
                }
            }
        },
    }
}

/// A rule is inside a rule's caps at a depth exactly where the depth is
/// less than the deepest, a threshold has no more branches than it may,
/// asks for at least one of them and no more than there are, or asks
/// nothing or the impossible of none, and each branch is inside the caps
/// one deeper.
pub proof fn law_a_rule_is_within_caps_where_its_branches_are<L>(rule: Rule<L>, depth: nat)
    ensures
        rule.is_within_caps(depth) <==> {
            &&& depth < crate::rule::MAX_RULE_DEPTH
            &&& rule matches Rule::CountOf { count, rules } ==> {
                &&& rules@.len() <= crate::rule::MAX_RULE_BRANCHES
                &&& rules@.len() == 0 ==> count == 0 || count == 1
                &&& rules@.len() > 0 ==> 0 < count && count <= rules@.len()
                &&& forall|i: int|
                    0 <= i < rules@.len() ==> (#[trigger] rules@[i]).is_within_caps(depth + 1)
            }
        },
{
}

/// An entry that says what leaving it out would is refused: nobody, of a
/// behaviour about whoever acts, and anyone, of a withdrawal or a deposit.
/// What it says the other way round is no such thing.
pub proof fn law_an_entry_says_something(
    behaviour: GrantedBehaviour,
    rule: crate::resource::GrantRuleExpr,
)
    ensures
        ({
            let about_the_mover = behaviour == GrantedBehaviour::Withdraw || behaviour
                == GrantedBehaviour::Deposit;
            crate::publish::bounds::grant_verdict(behaviour, rule) == Err::<
                (),
                SignatureBoundsError,
            >(SignatureBoundsError::UnadmittedGrant) <==> (rule matches Rule::CountOf {
                count,
                rules,
            } && rules@.len() == 0 && count == (if about_the_mover {
                0u32
            } else {
                1u32
            }))
        }),
{
    let leaves = crate::publish::bounds::grant_leaf_verdicts(rule.all_leaves());
    if crate::verdict::first_refusal(leaves) is Err {
        let k = crate::publish::faults::lemma_refused_somewhere(leaves);
        let subject = rule.all_leaves()[k];
        let held = match subject {
            GrantSubject::SelfBadge { rules, .. } => rules,
            GrantSubject::SelfInstance { rules, .. } => rules,
            _ => arbitrary(),
        };
        let inner = crate::publish::bounds::inner_rule_verdicts(held.listed());
        let m = crate::publish::faults::lemma_refused_somewhere(inner);
        let last = crate::publish::bounds::inner_leaf_verdicts(held.listed()[m].1.all_leaves());
        if crate::verdict::first_refusal(last) is Err {
            let n = crate::publish::faults::lemma_refused_somewhere(last);
        }
    }
}

/// A badge an accepted entry names is granted by nothing but the issuer
/// and configured parties: no badge of a badge.
pub proof fn law_badges_chain_no_further(
    behaviour: GrantedBehaviour,
    rule: crate::resource::GrantRuleExpr,
    i: int,
    j: int,
    k: int,
)
    requires
        crate::publish::bounds::grant_verdict(behaviour, rule) is Ok,
        0 <= i < rule.all_leaves().len(),
    ensures
        ({
            let subject = rule.all_leaves()[i];
            &&& subject matches GrantSubject::SelfBadge { rules, .. } ==> 0 <= j
                < rules.listed().len() ==> rules.listed()[j].1.is_within_caps(0) && (0 <= k
                < rules.listed()[j].1.all_leaves().len() ==> (
            rules.listed()[j].1.all_leaves()[k] is SelfAddr
                || rules.listed()[j].1.all_leaves()[k] is Config))
            &&& subject matches GrantSubject::SelfInstance { rules, .. } ==> 0 <= j
                < rules.listed().len() ==> rules.listed()[j].1.is_within_caps(0) && (0 <= k
                < rules.listed()[j].1.all_leaves().len() ==> (
            rules.listed()[j].1.all_leaves()[k] is SelfAddr
                || rules.listed()[j].1.all_leaves()[k] is Config))
        }),
{
    let leaves = crate::publish::bounds::grant_leaf_verdicts(rule.all_leaves());
    crate::verdict::lemma_accepted(leaves);
    assert(leaves[i] is Ok);
    let subject = rule.all_leaves()[i];
    let held = match subject {
        GrantSubject::SelfBadge { rules, .. } => rules,
        GrantSubject::SelfInstance { rules, .. } => rules,
        _ => arbitrary(),
    };
    if (subject is SelfBadge || subject is SelfInstance) && 0 <= j < held.listed().len() {
        let inner = crate::publish::bounds::inner_rule_verdicts(held.listed());
        crate::verdict::lemma_accepted(inner);
        assert(inner[j] is Ok);
        let last = crate::publish::bounds::inner_leaf_verdicts(held.listed()[j].1.all_leaves());
        crate::verdict::lemma_accepted(last);
        if 0 <= k < held.listed()[j].1.all_leaves().len() {
            assert(last[k] is Ok);
        }
    }
}

/// Whether a refusal is for a count of clauses or issuances, or for how
/// clauses nest, and so for no one expression.
pub open spec fn is_for_a_count(error: SignatureBoundsError) -> bool {
    error is TooManyEffects || error is TooManyMints || error is TooManyIssuances
        || error is ClauseDepth
}

/// A grant is never refused for a count.
proof fn lemma_grants_error(grants: GrantsExpr)
    ensures
        crate::publish::bounds::grants_verdict(grants) matches Err(error) ==> !is_for_a_count(
            error,
        ),
{
    let verdicts = crate::publish::bounds::grant_verdicts(grants.listed());
    if crate::verdict::first_refusal(verdicts) is Err {
        let i = crate::publish::faults::lemma_refused_somewhere(verdicts);
        let rule = grants.listed()[i].1;
        let leaves = crate::publish::bounds::grant_leaf_verdicts(rule.all_leaves());
        if crate::verdict::first_refusal(leaves) is Err {
            let k = crate::publish::faults::lemma_refused_somewhere(leaves);
            let held = match rule.all_leaves()[k] {
                GrantSubject::SelfBadge { rules, .. } => rules,
                GrantSubject::SelfInstance { rules, .. } => rules,
                _ => arbitrary(),
            };
            let inner = crate::publish::bounds::inner_rule_verdicts(held.listed());
            let m = crate::publish::faults::lemma_refused_somewhere(inner);
            let last = crate::publish::bounds::inner_leaf_verdicts(
                held.listed()[m].1.all_leaves(),
            );
            if crate::verdict::first_refusal(last) is Err {
                let n = crate::publish::faults::lemma_refused_somewhere(last);
            }
        }
    }
}

/// An expression is never refused for a count.
proof fn lemma_expr_error(expr: Expr, depth: nat)
    ensures
        crate::publish::bounds::expr_verdict(expr, depth) matches Err(error) ==> !is_for_a_count(
            error,
        ),
    decreases expr,
{
    match expr {
        Expr::SelfResource { grants, .. } => lemma_grants_error(grants),
        _ => {},
    }
    let verdicts = crate::publish::bounds::inside_verdicts(expr, depth + 1);
    if depth <= crate::dsl::MAX_EXPR_DEPTH && crate::verdict::first_refusal(verdicts) is Err {
        let i = crate::publish::faults::lemma_refused_somewhere(verdicts);
        expr.lemma_inside_smaller();
        assert(decreases_to!(expr => expr.inside()[i]));
        lemma_expr_error(expr.inside()[i], depth + 1);
    }
}

/// Expressions are never refused for a count.
proof fn lemma_exprs_error(exprs: Seq<Expr>)
    ensures
        crate::verdict::first_refusal(
            crate::publish::bounds::expr_verdicts(exprs, 0),
        ) matches Err(error) ==> !is_for_a_count(error),
{
    let verdicts = crate::publish::bounds::expr_verdicts(exprs, 0);
    if crate::verdict::first_refusal(verdicts) is Err {
        let i = crate::publish::faults::lemma_refused_somewhere(verdicts);
        lemma_expr_error(exprs[i], 0);
    }
}

/// A target is never refused for a count.
proof fn lemma_target_error(target: TargetExpr)
    ensures
        crate::publish::bounds::target_verdict(target) matches Err(error) ==> !is_for_a_count(
            error,
        ),
{
    match target {
        TargetExpr::Point(key) => lemma_expr_error(key, 0),
        TargetExpr::Entry { owner, material, order, .. } => {
            lemma_expr_error(owner, 0);
            lemma_exprs_error(material@);
            lemma_expr_error(order, 0);
        },
        TargetExpr::Range { owner, material, lo, hi, cap, .. } => {
            lemma_expr_error(owner, 0);
            lemma_exprs_error(material@);
            lemma_expr_error(lo, 0);
            lemma_expr_error(hi, 0);
            lemma_expr_error(cap, 0);
        },
    }
}

/// A rule is never refused for a count.
proof fn lemma_rule_error(rule: RuleExpr)
    ensures
        crate::publish::bounds::rule_verdict(rule) matches Err(error) ==> !is_for_a_count(error),
    decreases rule,
{
    match rule {
        Rule::Require(RuleLeaf::Claim(claim)) => lemma_expr_error(claim, 0),
        Rule::Require(RuleLeaf::Stored { cell }) => lemma_expr_error(cell, 0),
        Rule::Require(RuleLeaf::Presence { target, .. }) => lemma_target_error(*target),
        Rule::CountOf { rules, .. } => {
            let verdicts = crate::publish::bounds::rule_verdicts(rules@);
            if crate::verdict::first_refusal(verdicts) is Err {
                let i = crate::publish::faults::lemma_refused_somewhere(verdicts);
                assert(decreases_to!(rules@ => rules@[i]));
                lemma_rule_error(rules@[i]);
            }
        },
    }
}

/// What a run of clauses is refused a count for, it is past.
#[verifier::spinoff_prover]
#[verifier::rlimit(80)]
proof fn lemma_clauses_error(clauses: Seq<Clause>, depth: nat, tally: Tally)
    requires
        tally.declared <= MAX_EFFECTS_PER_SIGNATURE,
        tally.minted <= MAX_MINTS_PER_SIGNATURE,
    ensures
        ({
            let flat = Clause::preorder(clauses);
            let counted = crate::publish::bounds::clauses_tally(clauses, depth, tally);
            &&& counted matches Err(error) ==> {
                &&& error is TooManyEffects ==> tally.declared + crate::publish::laws::counted(
                    flat,
                ) > MAX_EFFECTS_PER_SIGNATURE
                &&& error is TooManyMints ==> tally.minted + crate::publish::laws::minting(flat)
                    > MAX_MINTS_PER_SIGNATURE
                &&& error is ClauseDepth ==> depth + nests(clauses)
                    > crate::dsl::MAX_CLAUSE_DEPTH
                &&& !(error is TooManyIssuances)
            }
        }),
    decreases clauses,
{
    let flat = Clause::preorder(clauses);
    if clauses.len() > 0 {
        let before = clauses.drop_last();
        let last = clauses.last();
        let head = Clause::preorder(before);
        assert(decreases_to!(clauses => before));
        assert(decreases_to!(clauses => clauses[clauses.len() - 1]));
        lemma_clauses_error(before, depth, tally);
        lemma_clauses_fit(before, depth, tally);
        crate::publish::laws::lemma_counts_add(head, last.walk());
        assert(flat =~= head + last.walk());
        assert(seq![last].drop_last() =~= Seq::empty());
        assert(crate::publish::laws::counted(Seq::empty()) == 0);
        assert(crate::publish::laws::minting(Seq::empty()) == 0);
        assert(seq![last].last() == last);
        assert(crate::publish::laws::counted(seq![last]) == (if last is ForEach {
            0nat
        } else {
            1nat
        }));
        assert(crate::publish::laws::minting(seq![last]) == (if last is Mints {
            1nat
        } else {
            0nat
        }));
        let so_far = crate::publish::bounds::clauses_tally(before, depth, tally);
        assert(nests(clauses) >= nests(before));
        if !(last is ForEach) {
            assert(last.walk() =~= seq![last]);
        }
        match crate::publish::faults::judgment_on(last) {
            Some(judgment) => lemma_expr_error(*judgment, 0),
            None => {},
        }
        match last {
            Clause::ForEach { list, body, .. } => {
                lemma_expr_error(list, 0);
                crate::publish::laws::lemma_counts_add(seq![last], Clause::preorder(body@));
                assert(last.walk() =~= seq![last] + Clause::preorder(body@));
                assert(nests(clauses) >= 1 + nests(body@));
                if so_far is Ok {
                    lemma_clauses_error(body@, depth + 1, so_far->Ok_0);
                }
            },
            Clause::Effect { target, mode, denomination, .. } => {
                lemma_target_error(target);
                match mode {
                    ModeExpr::Reserve(amount) => lemma_expr_error(amount, 0),
                    _ => {},
                }
                match denomination {
                    Some(held) => lemma_expr_error(*held, 0),
                    None => {},
                }
            },
            Clause::Requires { rule, .. } => lemma_rule_error(rule),
            Clause::Mints { claim, .. } => lemma_expr_error(claim, 0),
        }
        let all = crate::publish::bounds::clauses_tally(clauses, depth, tally);
        if depth <= crate::dsl::MAX_CLAUSE_DEPTH && so_far is Ok {
            let reached = so_far->Ok_0;
            let one = crate::publish::bounds::clause_tally(last, depth, reached);
            assert(all == one);
            assert(reached.declared == tally.declared + crate::publish::laws::counted(head));
            assert(reached.minted == tally.minted + crate::publish::laws::minting(head));
            if one is Err && !(last is ForEach) {
                let error = one->Err_0;
                assert(error is TooManyEffects ==> reached.declared + 1
                    > MAX_EFFECTS_PER_SIGNATURE);
                assert(error is TooManyMints ==> last is Mints && reached.minted + 1
                    > MAX_MINTS_PER_SIGNATURE);
                assert(!(error is ClauseDepth));
                assert(!(error is TooManyIssuances));
            }
        }
    }
}

/// A signature refused for a count, or for how deep its clauses nest, is
/// past that very ceiling.
pub proof fn law_a_signature_refused_for_a_count_is_past_it(signature: MethodSignature)
    ensures
        crate::publish::bounds::bounds_verdict(signature) matches Err(error) ==> {
            let flat = Clause::preorder(signature.effects@);
            &&& error is TooManyIssuances ==> signature.issues@.len()
                > MAX_ISSUANCES_PER_SIGNATURE
            &&& error is TooManyEffects ==> crate::publish::laws::counted(flat)
                > MAX_EFFECTS_PER_SIGNATURE
            &&& error is TooManyMints ==> crate::publish::laws::minting(flat)
                > MAX_MINTS_PER_SIGNATURE
            &&& error is ClauseDepth ==> nests(signature.effects@)
                > crate::dsl::MAX_CLAUSE_DEPTH
        },
{
    lemma_exprs_error(signature.outputs@);
    lemma_clauses_error(
        signature.effects@,
        0,
        crate::publish::bounds::nothing_counted(),
    );
    let denominations = crate::publish::bounds::denomination_verdicts(signature.denominations@);
    let derived = crate::publish::bounds::abi_verdicts(signature.abi@);
    let issuances = crate::publish::bounds::issuance_verdicts(signature.issues@);
    if crate::verdict::first_refusal(denominations) is Err {
        let i = crate::publish::faults::lemma_refused_somewhere(denominations);
        lemma_expr_error(signature.denominations@[i]->Some_0, 0);
    }
    if crate::verdict::first_refusal(derived) is Err {
        let i = crate::publish::faults::lemma_refused_somewhere(derived);
        lemma_expr_error(signature.abi@[i]->Derived_0, 0);
    }
    if crate::verdict::first_refusal(issuances) is Err {
        let i = crate::publish::faults::lemma_refused_somewhere(issuances);
        lemma_grants_error(signature.issues@[i].grants);
    }
}

} // verus!
