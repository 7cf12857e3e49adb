//! Caps: what one signature may hold at all.
//!
//! Every walk here mirrors an evaluator's own recursion, with the same
//! starting depth and the same comparison, so a signature accepted here is
//! one evaluation will not refuse on structure alone.
use vstd::prelude::*;

use crate::dsl::{
    Clause, Expr, ModeExpr, RuleExpr, RuleLeaf, TargetExpr, MAX_CLAUSE_DEPTH,
    MAX_EFFECTS_PER_SIGNATURE, MAX_EXPR_DEPTH,
};
use crate::resource::{GrantRuleExpr, GrantSubject, GrantedBehaviour, GrantsExpr};
use crate::rule::{Rule, MAX_RULE_LEAVES};
use crate::signature::{
    AbiParam, Issuance, MethodSignature, MAX_ISSUANCES_PER_SIGNATURE, MAX_MINTS_PER_SIGNATURE,
};
use crate::types::{MAX_VALUE_DEPTH, MAX_VALUE_ITEMS};

verus! {

/// Why one signature is past a bound the vocabulary fixes.
#[derive(Clone, Copy, Debug, PartialEq, Eq, Structural)]
pub enum SignatureBoundsError {
    /// A granted entry spelled as the constant its absence already says.
    UnadmittedGrant,
    /// More issuances than one signature may carry.
    TooManyIssuances,
    /// More minting clauses than one signature may carry.
    TooManyMints,
    /// A granted rule naming a badge whose own rules name a badge.
    BadgeChainTooDeep,
    /// A rule past the caps a stored one is read under.
    RuleCaps,
    /// An expression nested past the evaluator's own recursion bound.
    ExprDepth,
    /// A literal nested past the depth a value may have.
    LiteralDepth,
    /// `for-each` clauses nested past the evaluator's bound.
    ClauseDepth,
    /// More effect clauses than one signature may declare.
    TooManyEffects,
    /// A value wider than the bound every walk over one is charged
    /// against: a literal past it, or a list the evaluator would build
    /// past it.
    ValueWidth,
}

/// Whether a grant leaf names a badge of the issuer's.
pub open spec fn names_a_badge(subject: GrantSubject) -> bool {
    subject is SelfBadge || subject is SelfInstance
}

/// The verdict on one leaf of a badge's own rules, which name no badge:
/// the chain a resource's address folds is one link long.
pub open spec fn inner_leaf_verdict(subject: GrantSubject) -> Result<(), SignatureBoundsError> {
    if names_a_badge(subject) {
        Err(SignatureBoundsError::BadgeChainTooDeep)
    } else {
        Ok(())
    }
}

/// The verdict on one rule of a badge's own.
pub open spec fn inner_rule_verdict(rule: GrantRuleExpr) -> Result<(), SignatureBoundsError> {
    if !rule.is_within_caps(0) {
        Err(SignatureBoundsError::RuleCaps)
    } else {
        crate::verdict::first_refusal(inner_leaf_verdicts(rule.all_leaves()))
    }
}

/// The verdicts on the leaves of a badge's own rule, in order.
pub open spec fn inner_leaf_verdicts(leaves: Seq<GrantSubject>) -> Seq<
    Result<(), SignatureBoundsError>,
> {
    Seq::new(leaves.len(), |i: int| inner_leaf_verdict(leaves[i]))
}

/// The verdict on one leaf of a granted rule.
pub open spec fn grant_leaf_verdict(subject: GrantSubject) -> Result<(), SignatureBoundsError> {
    match subject {
        GrantSubject::SelfAddr => Ok(()),
        GrantSubject::Config(_) => Ok(()),
        GrantSubject::SelfBadge { rules, .. } => badge_verdict(rules),
        GrantSubject::SelfInstance { rules, .. } => badge_verdict(rules),
    }
}

/// The verdict on the entries a badge carries.
pub open spec fn badge_verdict(rules: GrantsExpr) -> Result<(), SignatureBoundsError> {
    crate::verdict::first_refusal(inner_rule_verdicts(rules.listed()))
}

/// The verdicts on the entries a badge carries, in order.
pub open spec fn inner_rule_verdicts(entries: Seq<(GrantedBehaviour, GrantRuleExpr)>) -> Seq<
    Result<(), SignatureBoundsError>,
> {
    Seq::new(entries.len(), |i: int| inner_rule_verdict(entries[i].1))
}

/// How many leaves of a run name a configuration field.
pub open spec fn config_leaves(leaves: Seq<GrantSubject>) -> nat
    decreases leaves.len(),
{
    if leaves.len() == 0 {
        0
    } else {
        config_leaves(leaves.drop_last()) + if leaves.last() is Config {
            1nat
        } else {
            0nat
        }
    }
}

/// How many leaves a granted rule gains as it seals: a movement entry
/// naming a configuration field seals as both shapes a holding takes,
/// because a field carries no kind.
pub open spec fn widening(behaviour: GrantedBehaviour, rule: GrantRuleExpr) -> nat {
    if behaviour.about_the_actor() {
        0
    } else {
        config_leaves(rule.all_leaves())
    }
}

/// Whether a rule is the constant a behaviour's own absence already says:
/// nobody may act, and nothing stops a movement.
pub open spec fn says_what_absence_says(behaviour: GrantedBehaviour, rule: GrantRuleExpr) -> bool {
    if behaviour.about_the_actor() {
        rule.is_never()
    } else {
        rule.is_always()
    }
}

/// The verdict on one granted entry.
pub open spec fn grant_verdict(behaviour: GrantedBehaviour, rule: GrantRuleExpr) -> Result<
    (),
    SignatureBoundsError,
> {
    let widened = widening(behaviour, rule);
    let leaves = rule.all_leaves();
    if says_what_absence_says(behaviour, rule) {
        Err(SignatureBoundsError::UnadmittedGrant)
    } else if !rule.is_within_caps(if widened > 0 {
        1
    } else {
        0
    }) {
        Err(SignatureBoundsError::RuleCaps)
    } else if leaves.len() + widened > MAX_RULE_LEAVES {
        Err(SignatureBoundsError::RuleCaps)
    } else {
        crate::verdict::first_refusal(grant_leaf_verdicts(leaves))
    }
}

/// The verdicts on the leaves of a granted rule, in order.
pub open spec fn grant_leaf_verdicts(leaves: Seq<GrantSubject>) -> Seq<
    Result<(), SignatureBoundsError>,
> {
    Seq::new(leaves.len(), |i: int| grant_leaf_verdict(leaves[i]))
}

/// The verdict on the entries a declaration grants.
pub open spec fn grants_verdict(grants: GrantsExpr) -> Result<(), SignatureBoundsError> {
    crate::verdict::first_refusal(grant_verdicts(grants.listed()))
}

/// The verdicts on the entries a declaration grants, in order.
pub open spec fn grant_verdicts(entries: Seq<(GrantedBehaviour, GrantRuleExpr)>) -> Seq<
    Result<(), SignatureBoundsError>,
> {
    Seq::new(entries.len(), |i: int| grant_verdict(entries[i].0, entries[i].1))
}

/// One rule of a badge's own, held to the caps and to naming no badge.
fn check_badge_rule(rule: &GrantRuleExpr) -> (r: Result<(), SignatureBoundsError>)
    ensures
        r == inner_rule_verdict(*rule),
{
    if !rule.within_caps(0) {
        return Err(SignatureBoundsError::RuleCaps);
    }
    let leaves = rule.leaves();
    let ghost verdicts = inner_leaf_verdicts(rule.all_leaves());
    proof {
        crate::verdict::lemma_all(verdicts);
    }
    let mut i: usize = 0;
    while i < leaves.len()
        invariant
            i <= leaves.len(),
            leaves@.unref() == rule.all_leaves(),
            verdicts == inner_leaf_verdicts(rule.all_leaves()),
            crate::verdict::first_refusal(verdicts.take(i as int)) is Ok,
            rule.is_within_caps(0),
        decreases leaves.len() - i,
    {
        assert(leaves@.unref()[i as int] == *leaves@[i as int]);
        proof {
            crate::verdict::lemma_one_more(verdicts, i as int);
        }
        match leaves[i] {
            GrantSubject::SelfBadge { .. } => {
                return Err(SignatureBoundsError::BadgeChainTooDeep);
            },
            GrantSubject::SelfInstance { .. } => {
                return Err(SignatureBoundsError::BadgeChainTooDeep);
            },
            _ => {},
        }
        i = i + 1;
    }
    proof {
        crate::verdict::lemma_all(verdicts);
    }
    Ok(())
}

/// The entries a badge carries, each rule in order.
fn check_badge(rules: &GrantsExpr) -> (r: Result<(), SignatureBoundsError>)
    ensures
        r == badge_verdict(*rules),
{
    let ghost verdicts = inner_rule_verdicts(rules.listed());
    proof {
        crate::verdict::lemma_all(verdicts);
    }
    let mut i: usize = 0;
    while i < rules.len()
        invariant
            i <= rules.listed().len(),
            verdicts == inner_rule_verdicts(rules.listed()),
            crate::verdict::first_refusal(verdicts.take(i as int)) is Ok,
        decreases rules.listed().len() - i,
    {
        proof {
            crate::verdict::lemma_one_more(verdicts, i as int);
        }
        match check_badge_rule(rules.rule(i)) {
            Ok(()) => {},
            Err(refusal) => {
                return Err(refusal);
            },
        }
        i = i + 1;
    }
    proof {
        crate::verdict::lemma_all(verdicts);
    }
    Ok(())
}

/// One grant leaf, held to the one link a badge chain may be.
///
/// A badge carries the rules its own address grants, and those rules name
/// no badge: the chain a resource's address folds is one link long, so
/// the depth of a derivation is a property of the resource rather than of
/// how deeply its author nested.
pub fn check_grant_leaf(claim: &GrantSubject) -> (r: Result<(), SignatureBoundsError>)
    ensures
        r == grant_leaf_verdict(*claim),
{
    match claim {
        GrantSubject::SelfAddr => Ok(()),
        GrantSubject::Config(_) => Ok(()),
        GrantSubject::SelfBadge { rules, .. } => check_badge(rules),
        GrantSubject::SelfInstance { rules, .. } => check_badge(rules),
    }
}

/// How many of a run of leaves name a configuration field.
fn count_config(leaves: &Vec<&GrantSubject>) -> (r: usize)
    ensures
        r == config_leaves(leaves@.unref()),
        r <= leaves@.len(),
{
    let ghost all = leaves@.unref();
    let mut count: usize = 0;
    let mut i: usize = 0;
    assert(all.take(0) =~= Seq::empty());
    while i < leaves.len()
        invariant
            i <= leaves.len(),
            count <= i,
            all == leaves@.unref(),
            count == config_leaves(all.take(i as int)),
        decreases leaves.len() - i,
    {
        proof {
            assert(all.take(i as int + 1).drop_last() =~= all.take(i as int));
            assert(all.take(i as int + 1).last() == *leaves@[i as int]);
        }
        match leaves[i] {
            GrantSubject::Config(_) => {
                count = count + 1;
            },
            _ => {},
        }
        i = i + 1;
    }
    assert(all.take(i as int) =~= all);
    count
}

/// One granted entry, under the caps a stored rule is read under.
fn check_grant(behaviour: GrantedBehaviour, rule: &GrantRuleExpr) -> (r: Result<
    (),
    SignatureBoundsError,
>)
    ensures
        r == grant_verdict(behaviour, *rule),
{
    // The constant a behaviour's own absence already says is a second
    // spelling of nothing, and saying so at publish is what keeps the
    // sealed table to one spelling per state.
    let spelled = if behaviour.asks_about_the_actor() {
        rule.says_never()
    } else {
        rule.says_always()
    };
    if spelled {
        return Err(SignatureBoundsError::UnadmittedGrant);
    }
    let leaves = rule.leaves();
    // A movement entry naming a badge through configuration seals as both
    // shapes a holding takes, so the rule the address folds sits one level
    // below the rule the author wrote, and is held to the caps there.
    let widened: usize = if behaviour.asks_about_the_actor() {
        0
    } else {
        count_config(&leaves)
    };
    let depth: usize = if widened > 0 {
        1
    } else {
        0
    };
    if !rule.within_caps(depth) {
        return Err(SignatureBoundsError::RuleCaps);
    }
    // And the leaves it seals as, not only the ones it was written with:
    // each widened leaf becomes two, so a set inside the budget as
    // declared can be past it as sealed.
    if leaves.len() > MAX_RULE_LEAVES || widened > MAX_RULE_LEAVES - leaves.len() {
        return Err(SignatureBoundsError::RuleCaps);
    }
    let ghost verdicts = grant_leaf_verdicts(rule.all_leaves());
    proof {
        crate::verdict::lemma_all(verdicts);
    }
    let mut i: usize = 0;
    while i < leaves.len()
        invariant
            i <= leaves.len(),
            leaves@.unref() == rule.all_leaves(),
            verdicts == grant_leaf_verdicts(rule.all_leaves()),
            crate::verdict::first_refusal(verdicts.take(i as int)) is Ok,
            grant_verdict(behaviour, *rule) == crate::verdict::first_refusal(verdicts),
        decreases leaves.len() - i,
    {
        assert(leaves@.unref()[i as int] == *leaves@[i as int]);
        proof {
            crate::verdict::lemma_one_more(verdicts, i as int);
        }
        match check_grant_leaf(leaves[i]) {
            Ok(()) => {},
            Err(refusal) => {
                return Err(refusal);
            },
        }
        i = i + 1;
    }
    proof {
        crate::verdict::lemma_all(verdicts);
    }
    Ok(())
}

/// Every rule a declaration grants, under the caps a stored rule is read
/// under.
///
/// A resolved rule is what a holder judges: a set past the caps would
/// derive an address whose rules nothing could read, and refusing at
/// publish is the verdict a package author hears.
pub fn check_grants_bounds(grants: &GrantsExpr) -> (r: Result<(), SignatureBoundsError>)
    ensures
        r == grants_verdict(*grants),
{
    let ghost verdicts = grant_verdicts(grants.listed());
    proof {
        crate::verdict::lemma_all(verdicts);
    }
    let mut i: usize = 0;
    while i < grants.len()
        invariant
            i <= grants.listed().len(),
            verdicts == grant_verdicts(grants.listed()),
            crate::verdict::first_refusal(verdicts.take(i as int)) is Ok,
        decreases grants.listed().len() - i,
    {
        proof {
            crate::verdict::lemma_one_more(verdicts, i as int);
        }
        match check_grant(grants.behaviour(i), grants.rule(i)) {
            Ok(()) => {},
            Err(refusal) => {
                return Err(refusal);
            },
        }
        i = i + 1;
    }
    proof {
        crate::verdict::lemma_all(verdicts);
    }
    Ok(())
}

/// What an expression is refused for beside what is in it.
pub open spec fn head_verdict(expr: Expr) -> Result<(), SignatureBoundsError> {
    match expr {
        Expr::Literal(literal) => if literal.depth() > MAX_VALUE_DEPTH {
            Err(SignatureBoundsError::LiteralDepth)
        } else if !literal.within_width() {
            Err(SignatureBoundsError::ValueWidth)
        } else {
            Ok(())
        },
        Expr::List(elements) => width_verdict(elements@.len()),
        Expr::Tuple(elements) => width_verdict(elements@.len()),
        Expr::SelfResource { grants, .. } => grants_verdict(grants),
        _ => Ok(()),
    }
}

/// The verdict on a list or tuple the evaluator builds, whose arity is the
/// expression's own.
pub open spec fn width_verdict(items: nat) -> Result<(), SignatureBoundsError> {
    if items > MAX_VALUE_ITEMS {
        Err(SignatureBoundsError::ValueWidth)
    } else {
        Ok(())
    }
}

/// The verdict on an expression standing at `depth`: on itself, and then
/// on what is in it, one deeper.
pub open spec fn expr_verdict(expr: Expr, depth: nat) -> Result<(), SignatureBoundsError>
    decreases expr, 1nat,
{
    if depth > MAX_EXPR_DEPTH {
        Err(SignatureBoundsError::ExprDepth)
    } else {
        crate::verdict::followed_by(
            head_verdict(expr),
            crate::verdict::first_refusal(inside_verdicts(expr, depth + 1)),
        )
    }
}

/// The verdicts on what is in an expression, standing at `depth`.
pub open spec fn inside_verdicts(expr: Expr, depth: nat) -> Seq<Result<(), SignatureBoundsError>>
    decreases expr, 0nat,
{
    proof {
        expr.lemma_inside_smaller();
    }
    let inside = expr.inside();
    Seq::new(
        inside.len(),
        |i: int|
            if 0 <= i < inside.len() {
                expr_verdict(inside[i], depth)
            } else {
                Ok(())
            },
    )
}

/// The verdicts on expressions standing at `depth`, in order.
pub open spec fn expr_verdicts(exprs: Seq<Expr>, depth: nat) -> Seq<
    Result<(), SignatureBoundsError>,
> {
    Seq::new(exprs.len(), |i: int| expr_verdict(exprs[i], depth))
}

/// What an expression is refused for beside what is in it.
fn check_expr_head(expr: &Expr) -> (r: Result<(), SignatureBoundsError>)
    ensures
        r == head_verdict(*expr),
{
    match expr {
        Expr::Literal(literal) => {
            if literal.nests_past(MAX_VALUE_DEPTH) {
                return Err(SignatureBoundsError::LiteralDepth);
            }
            if !literal.is_within_width() {
                return Err(SignatureBoundsError::ValueWidth);
            }
            Ok(())
        },
        // A list or tuple the evaluator builds rather than reads: its
        // arity is the expression's own.
        Expr::List(elements) => if elements.len() > MAX_VALUE_ITEMS {
            Err(SignatureBoundsError::ValueWidth)
        } else {
            Ok(())
        },
        Expr::Tuple(elements) => if elements.len() > MAX_VALUE_ITEMS {
            Err(SignatureBoundsError::ValueWidth)
        } else {
            Ok(())
        },
        // The granted set holds no expression at all, so it is walked here
        // rather than reached by the recursion.
        Expr::SelfResource { grants, .. } => check_grants_bounds(grants),
        _ => Ok(()),
    }
}

/// An expression standing at `depth`, under the expression caps.
pub fn check_expr_bounds(expr: &Expr, depth: usize) -> (r: Result<(), SignatureBoundsError>)
    ensures
        r == expr_verdict(*expr, depth as nat),
    decreases expr,
{
    if depth > MAX_EXPR_DEPTH {
        return Err(SignatureBoundsError::ExprDepth);
    }
    match check_expr_head(expr) {
        Ok(()) => {},
        Err(refusal) => {
            return Err(refusal);
        },
    }
    let inside = expr.children();
    let ghost verdicts = inside_verdicts(*expr, (depth + 1) as nat);
    proof {
        crate::verdict::lemma_all(verdicts);
        expr.lemma_inside_smaller();
    }
    let mut i: usize = 0;
    while i < inside.len()
        invariant
            i <= inside.len(),
            depth <= MAX_EXPR_DEPTH,
            inside@.unref() == expr.inside(),
            verdicts == inside_verdicts(*expr, (depth + 1) as nat),
            crate::verdict::first_refusal(verdicts.take(i as int)) is Ok,
            expr_verdict(*expr, depth as nat) == crate::verdict::first_refusal(verdicts),
            forall|j: int|
                0 <= j < expr.inside().len() ==> #[trigger] decreases_to!(expr => expr.inside()[j]),
        decreases inside.len() - i,
    {
        assert(inside@.unref()[i as int] == *inside@[i as int]);
        assert(decreases_to!(expr => expr.inside()[i as int]));
        assert(verdicts[i as int] == expr_verdict(expr.inside()[i as int], (depth + 1) as nat));
        proof {
            crate::verdict::lemma_one_more(verdicts, i as int);
        }
        match check_expr_bounds(inside[i], depth + 1) {
            Ok(()) => {},
            Err(refusal) => {
                return Err(refusal);
            },
        }
        i = i + 1;
    }
    proof {
        crate::verdict::lemma_all(verdicts);
    }
    Ok(())
}

/// A run of expressions, each standing alone.
fn check_each_expr(exprs: &Vec<Expr>) -> (r: Result<(), SignatureBoundsError>)
    ensures
        r == crate::verdict::first_refusal(expr_verdicts(exprs@, 0)),
{
    let ghost verdicts = expr_verdicts(exprs@, 0);
    proof {
        crate::verdict::lemma_all(verdicts);
    }
    let mut i: usize = 0;
    while i < exprs.len()
        invariant
            i <= exprs.len(),
            verdicts == expr_verdicts(exprs@, 0),
            crate::verdict::first_refusal(verdicts.take(i as int)) is Ok,
        decreases exprs.len() - i,
    {
        proof {
            crate::verdict::lemma_one_more(verdicts, i as int);
        }
        match check_expr_bounds(&exprs[i], 0) {
            Ok(()) => {},
            Err(refusal) => {
                return Err(refusal);
            },
        }
        i = i + 1;
    }
    proof {
        crate::verdict::lemma_all(verdicts);
    }
    Ok(())
}

/// The verdict on a target: its owner, its material and its bounds, each
/// standing alone.
pub open spec fn target_verdict(target: TargetExpr) -> Result<(), SignatureBoundsError> {
    match target {
        TargetExpr::Point(key) => expr_verdict(key, 0),
        TargetExpr::Entry { owner, material, order, .. } => crate::verdict::followed_by(
            expr_verdict(owner, 0),
            crate::verdict::followed_by(
                crate::verdict::first_refusal(expr_verdicts(material@, 0)),
                expr_verdict(order, 0),
            ),
        ),
        TargetExpr::Range { owner, material, lo, hi, cap, .. } => crate::verdict::followed_by(
            expr_verdict(owner, 0),
            crate::verdict::followed_by(
                crate::verdict::first_refusal(expr_verdicts(material@, 0)),
                crate::verdict::followed_by(
                    expr_verdict(lo, 0),
                    crate::verdict::followed_by(expr_verdict(hi, 0), expr_verdict(cap, 0)),
                ),
            ),
        ),
    }
}

/// A target's owner, material and bounds, under the expression caps.
pub fn check_target_bounds(target: &TargetExpr) -> (r: Result<(), SignatureBoundsError>)
    ensures
        r == target_verdict(*target),
{
    match target {
        TargetExpr::Point(key) => check_expr_bounds(key, 0),
        TargetExpr::Entry { owner, material, order, .. } => {
            match check_expr_bounds(owner, 0) {
                Ok(()) => {},
                Err(refusal) => {
                    return Err(refusal);
                },
            }
            match check_each_expr(material) {
                Ok(()) => {},
                Err(refusal) => {
                    return Err(refusal);
                },
            }
            check_expr_bounds(order, 0)
        },
        TargetExpr::Range { owner, material, lo, hi, cap, .. } => {
            match check_expr_bounds(owner, 0) {
                Ok(()) => {},
                Err(refusal) => {
                    return Err(refusal);
                },
            }
            match check_each_expr(material) {
                Ok(()) => {},
                Err(refusal) => {
                    return Err(refusal);
                },
            }
            match check_expr_bounds(lo, 0) {
                Ok(()) => {},
                Err(refusal) => {
                    return Err(refusal);
                },
            }
            match check_expr_bounds(hi, 0) {
                Ok(()) => {},
                Err(refusal) => {
                    return Err(refusal);
                },
            }
            check_expr_bounds(cap, 0)
        },
    }
}

/// The verdict on a mode.
pub open spec fn mode_verdict(mode: ModeExpr) -> Result<(), SignatureBoundsError> {
    match mode {
        ModeExpr::Reserve(amount) => expr_verdict(amount, 0),
        _ => Ok(()),
    }
}

/// A mode's amount, under the expression caps.
pub fn check_mode_bounds(mode: &ModeExpr) -> (r: Result<(), SignatureBoundsError>)
    ensures
        r == mode_verdict(*mode),
{
    match mode {
        ModeExpr::Read => Ok(()),
        ModeExpr::Delta { .. } => Ok(()),
        ModeExpr::Write { .. } => Ok(()),
        ModeExpr::Reserve(amount) => check_expr_bounds(amount, 0),
    }
}

/// The verdict on a declared rule.
pub open spec fn rule_verdict(rule: RuleExpr) -> Result<(), SignatureBoundsError>
    decreases rule,
{
    if !rule.is_within_caps(0) {
        Err(SignatureBoundsError::RuleCaps)
    } else {
        match rule {
            Rule::Require(RuleLeaf::Claim(claim)) => expr_verdict(claim, 0),
            Rule::Require(RuleLeaf::Stored { cell }) => expr_verdict(cell, 0),
            Rule::Require(RuleLeaf::Presence { target, .. }) => target_verdict(*target),
            Rule::CountOf { rules, .. } => crate::verdict::first_refusal(rule_verdicts(rules@)),
        }
    }
}

/// The verdicts on declared rules, in order.
pub open spec fn rule_verdicts(rules: Seq<RuleExpr>) -> Seq<Result<(), SignatureBoundsError>>
    decreases rules,
{
    Seq::new(
        rules.len(),
        |i: int|
            if 0 <= i < rules.len() {
                rule_verdict(rules[i])
            } else {
                Ok(())
            },
    )
}

/// A declared rule under the caps a stored one is read under, and every
/// leaf under the expression caps.
pub fn check_rule_bounds(rule: &RuleExpr) -> (r: Result<(), SignatureBoundsError>)
    ensures
        r == rule_verdict(*rule),
    decreases rule,
{
    if !rule.within_caps(0) {
        return Err(SignatureBoundsError::RuleCaps);
    }
    match rule {
        Rule::Require(leaf) => match leaf {
            RuleLeaf::Claim(claim) => check_expr_bounds(claim, 0),
            RuleLeaf::Stored { cell } => check_expr_bounds(cell, 0),
            RuleLeaf::Presence { target, .. } => check_target_bounds(target),
        },
        Rule::CountOf { rules, .. } => {
            let ghost verdicts = rule_verdicts(rules@);
            proof {
                crate::verdict::lemma_all(verdicts);
            }
            let mut i: usize = 0;
            while i < rules.len()
                invariant
                    i <= rules.len(),
                    verdicts == rule_verdicts(rules@),
                    crate::verdict::first_refusal(verdicts.take(i as int)) is Ok,
                    rule_verdict(*rule) == crate::verdict::first_refusal(verdicts),
                    *rule matches Rule::CountOf { rules: held, .. } && held == *rules,
                decreases rules.len() - i,
            {
                proof {
                    crate::verdict::lemma_one_more(verdicts, i as int);
                }
                match check_rule_bounds(&rules[i]) {
                    Ok(()) => {},
                    Err(refusal) => {
                        return Err(refusal);
                    },
                }
                i = i + 1;
            }
            proof {
                crate::verdict::lemma_all(verdicts);
            }
            Ok(())
        },
    }
}

/// The verdict on an expression that may not be there.
pub open spec fn optional_verdict(expr: Option<Box<Expr>>) -> Result<(), SignatureBoundsError> {
    match expr {
        Some(held) => expr_verdict(*held, 0),
        None => Ok(()),
    }
}

/// An expression that may not be there, under the expression caps.
fn check_optional(expr: &Option<Box<Expr>>) -> (r: Result<(), SignatureBoundsError>)
    ensures
        r == optional_verdict(*expr),
{
    match expr {
        Some(held) => check_expr_bounds(held, 0),
        None => Ok(()),
    }
}

/// How many clauses a walk has counted: every clause that is not a loop,
/// and how many of those mint.
pub struct Tally {
    /// The clauses that are not loops.
    pub declared: nat,
    /// The ones that mint.
    pub minted: nat,
}

/// What one more judgment makes of a count so far.
pub open spec fn tally_if(verdict: Result<(), SignatureBoundsError>, tally: Tally) -> Result<
    Tally,
    SignatureBoundsError,
> {
    match verdict {
        Ok(_) => Ok(tally),
        Err(refusal) => Err(refusal),
    }
}

/// What an access, a condition or a mint makes of a count: its guard is
/// judged, then the count it takes, then what it says.
pub open spec fn tally_clause(
    guard: Option<Box<Expr>>,
    mints: bool,
    says: Result<(), SignatureBoundsError>,
    tally: Tally,
) -> Result<Tally, SignatureBoundsError> {
    let counted = Tally {
        declared: tally.declared + 1,
        minted: tally.minted + if mints {
            1nat
        } else {
            0nat
        },
    };
    match optional_verdict(guard) {
        Err(refusal) => Err(refusal),
        Ok(_) => if counted.declared > MAX_EFFECTS_PER_SIGNATURE {
            Err(SignatureBoundsError::TooManyEffects)
        } else if counted.minted > MAX_MINTS_PER_SIGNATURE {
            Err(SignatureBoundsError::TooManyMints)
        } else {
            tally_if(says, counted)
        },
    }
}

/// What one clause at `depth` makes of a count.
pub open spec fn clause_tally(clause: Clause, depth: nat, tally: Tally) -> Result<
    Tally,
    SignatureBoundsError,
>
    decreases clause,
{
    match clause {
        Clause::Effect { guard, target, mode, denomination, .. } => tally_clause(
            guard,
            false,
            crate::verdict::followed_by(
                target_verdict(target),
                crate::verdict::followed_by(mode_verdict(mode), optional_verdict(denomination)),
            ),
            tally,
        ),
        Clause::ForEach { guard, list, body } => match crate::verdict::followed_by(
            optional_verdict(guard),
            expr_verdict(list, 0),
        ) {
            Ok(_) => clauses_tally(body@, depth + 1, tally),
            Err(refusal) => Err(refusal),
        },
        Clause::Requires { guard, rule } => tally_clause(guard, false, rule_verdict(rule), tally),
        Clause::Mints { guard, claim } => tally_clause(guard, true, expr_verdict(claim, 0), tally),
    }
}

/// What clauses at `depth` make of a count, one after another.
pub open spec fn clauses_tally(clauses: Seq<Clause>, depth: nat, tally: Tally) -> Result<
    Tally,
    SignatureBoundsError,
>
    decreases clauses,
{
    if depth > MAX_CLAUSE_DEPTH {
        Err(SignatureBoundsError::ClauseDepth)
    } else if clauses.len() == 0 {
        Ok(tally)
    } else {
        match clauses_tally(clauses.drop_last(), depth, tally) {
            Ok(so_far) => clause_tally(clauses.last(), depth, so_far),
            Err(refusal) => Err(refusal),
        }
    }
}

/// The count a clause that is not a loop leaves, accepted or refused: one
/// refused at its guard is not counted, and a mint past the clauses' own
/// ceiling is not counted as a mint.
pub open spec fn reached_at_clause(guard: Option<Box<Expr>>, mints: bool, tally: Tally) -> Tally {
    if optional_verdict(guard) is Err {
        tally
    } else if tally.declared + 1 > MAX_EFFECTS_PER_SIGNATURE || !mints {
        Tally { declared: tally.declared + 1, minted: tally.minted }
    } else {
        Tally { declared: tally.declared + 1, minted: tally.minted + 1 }
    }
}

/// The count one clause at `depth` leaves, accepted or refused. A loop
/// refused before its body leaves the count as it was.
pub open spec fn clause_reached(clause: Clause, depth: nat, tally: Tally) -> Tally
    decreases clause,
{
    match clause {
        Clause::Effect { guard, .. } => reached_at_clause(guard, false, tally),
        Clause::ForEach { guard, list, body } => match crate::verdict::followed_by(
            optional_verdict(guard),
            expr_verdict(list, 0),
        ) {
            Ok(_) => clauses_reached(body@, depth + 1, tally),
            Err(_) => tally,
        },
        Clause::Requires { guard, .. } => reached_at_clause(guard, false, tally),
        Clause::Mints { guard, .. } => reached_at_clause(guard, true, tally),
    }
}

/// The count clauses at `depth` leave: what they come to where all of them
/// are accepted, and otherwise what was reached at the one refused first.
pub open spec fn clauses_reached(clauses: Seq<Clause>, depth: nat, tally: Tally) -> Tally
    decreases clauses,
{
    if depth > MAX_CLAUSE_DEPTH || clauses.len() == 0 {
        tally
    } else {
        match clauses_tally(clauses.drop_last(), depth, tally) {
            Ok(so_far) => clause_reached(clauses.last(), depth, so_far),
            Err(_) => clauses_reached(clauses.drop_last(), depth, tally),
        }
    }
}

/// A refusal among the first clauses is the verdict on them all, and the
/// count reached there stands.
proof fn lemma_tally_refused_early(clauses: Seq<Clause>, depth: nat, tally: Tally, taken: int)
    requires
        0 <= taken <= clauses.len(),
        clauses_tally(clauses.take(taken), depth, tally) is Err,
    ensures
        clauses_tally(clauses, depth, tally) == clauses_tally(clauses.take(taken), depth, tally),
        clauses_reached(clauses, depth, tally) == clauses_reached(
            clauses.take(taken),
            depth,
            tally,
        ),
    decreases clauses.len() - taken,
{
    if taken < clauses.len() {
        assert(clauses.take(taken + 1).drop_last() =~= clauses.take(taken));
        lemma_tally_refused_early(clauses, depth, tally, taken + 1);
    } else {
        assert(clauses.take(taken) =~= clauses);
    }
}

/// Judge one clause that is not a loop, counting it.
fn check_counted(
    guard: &Option<Box<Expr>>,
    mints: bool,
    declared: &mut usize,
    minted: &mut usize,
) -> (r: Result<(), SignatureBoundsError>)
    requires
        *old(declared) <= MAX_EFFECTS_PER_SIGNATURE,
        *old(minted) <= MAX_MINTS_PER_SIGNATURE,
    ensures
        forall|says: Result<(), SignatureBoundsError>|
            #![trigger tally_clause(*guard, mints, says, Tally {
                declared: *old(declared) as nat,
                minted: *old(minted) as nat,
            })]
            match r {
                Ok(_) => tally_clause(*guard, mints, says, Tally {
                    declared: *old(declared) as nat,
                    minted: *old(minted) as nat,
                }) == tally_if(says, Tally {
                    declared: *final(declared) as nat,
                    minted: *final(minted) as nat,
                }),
                Err(refusal) => tally_clause(*guard, mints, says, Tally {
                    declared: *old(declared) as nat,
                    minted: *old(minted) as nat,
                }) == Err::<Tally, SignatureBoundsError>(refusal),
            },
        (Tally {
            declared: *final(declared) as nat,
            minted: *final(minted) as nat,
        }) == reached_at_clause(
            *guard,
            mints,
            Tally {
                declared: *old(declared) as nat,
                minted: *old(minted) as nat,
            },
        ),
        r is Ok ==> *final(declared) <= MAX_EFFECTS_PER_SIGNATURE && *final(minted)
            <= MAX_MINTS_PER_SIGNATURE,
{
    match check_optional(guard) {
        Ok(()) => {},
        Err(refusal) => {
            return Err(refusal);
        },
    }
    *declared = *declared + 1;
    if *declared > MAX_EFFECTS_PER_SIGNATURE {
        return Err(SignatureBoundsError::TooManyEffects);
    }
    // Minting carries its own ceiling as well as the shared one: what a
    // mint costs is not the clause but the copy every later node
    // presenting it makes.
    if mints {
        *minted = *minted + 1;
        if *minted > MAX_MINTS_PER_SIGNATURE {
            return Err(SignatureBoundsError::TooManyMints);
        }
    }
    Ok(())
}

/// Clauses at `depth`, each under the caps, counting what they declare and
/// what they mint. Where one is refused, the counts are those reached at
/// it.
pub fn check_clause_bounds(
    clauses: &Vec<Clause>,
    depth: usize,
    declared: &mut usize,
    minted: &mut usize,
) -> (r: Result<(), SignatureBoundsError>)
    requires
        *old(declared) <= MAX_EFFECTS_PER_SIGNATURE,
        *old(minted) <= MAX_MINTS_PER_SIGNATURE,
    ensures
        match r {
            Ok(_) => clauses_tally(clauses@, depth as nat, Tally {
                declared: *old(declared) as nat,
                minted: *old(minted) as nat,
            }) == Ok::<Tally, SignatureBoundsError>(Tally {
                declared: *final(declared) as nat,
                minted: *final(minted) as nat,
            }),
            Err(refusal) => clauses_tally(clauses@, depth as nat, Tally {
                declared: *old(declared) as nat,
                minted: *old(minted) as nat,
            }) == Err::<Tally, SignatureBoundsError>(refusal),
        },
        (Tally {
            declared: *final(declared) as nat,
            minted: *final(minted) as nat,
        }) == clauses_reached(
            clauses@,
            depth as nat,
            Tally {
                declared: *old(declared) as nat,
                minted: *old(minted) as nat,
            },
        ),
        r is Ok ==> *final(declared) <= MAX_EFFECTS_PER_SIGNATURE && *final(minted)
            <= MAX_MINTS_PER_SIGNATURE,
    decreases clauses,
{
    if depth > MAX_CLAUSE_DEPTH {
        return Err(SignatureBoundsError::ClauseDepth);
    }
    let ghost start = Tally { declared: *declared as nat, minted: *minted as nat };
    let mut i: usize = 0;
    while i < clauses.len()
        invariant
            i <= clauses.len(),
            depth <= MAX_CLAUSE_DEPTH,
            *declared <= MAX_EFFECTS_PER_SIGNATURE,
            *minted <= MAX_MINTS_PER_SIGNATURE,
            start == (Tally { declared: *old(declared) as nat, minted: *old(minted) as nat }),
            clauses_tally(clauses@.take(i as int), depth as nat, start) == Ok::<
                Tally,
                SignatureBoundsError,
            >(Tally { declared: *declared as nat, minted: *minted as nat }),
            clauses_reached(clauses@.take(i as int), depth as nat, start) == (Tally {
                declared: *declared as nat,
                minted: *minted as nat,
            }),
        decreases clauses.len() - i,
    {
        let ghost so_far = Tally { declared: *declared as nat, minted: *minted as nat };
        let ghost longer = clauses@.take(i as int + 1);
        proof {
            assert(longer.drop_last() =~= clauses@.take(i as int));
            assert(longer.last() == clauses@[i as int]);
        }
        let verdict = check_one_clause(&clauses[i], depth, declared, minted);
        match verdict {
            Ok(()) => {},
            Err(refusal) => {
                proof {
                    lemma_tally_refused_early(clauses@, depth as nat, start, i as int + 1);
                }
                return Err(refusal);
            },
        }
        i = i + 1;
    }
    assert(clauses@.take(i as int) =~= clauses@);
    Ok(())
}

/// One clause at `depth` under the caps, counting what it declares and
/// what it mints.
fn check_one_clause(
    clause: &Clause,
    depth: usize,
    declared: &mut usize,
    minted: &mut usize,
) -> (r: Result<(), SignatureBoundsError>)
    requires
        depth <= MAX_CLAUSE_DEPTH,
        *old(declared) <= MAX_EFFECTS_PER_SIGNATURE,
        *old(minted) <= MAX_MINTS_PER_SIGNATURE,
    ensures
        match r {
            Ok(_) => clause_tally(*clause, depth as nat, Tally {
                declared: *old(declared) as nat,
                minted: *old(minted) as nat,
            }) == Ok::<Tally, SignatureBoundsError>(Tally {
                declared: *final(declared) as nat,
                minted: *final(minted) as nat,
            }),
            Err(refusal) => clause_tally(*clause, depth as nat, Tally {
                declared: *old(declared) as nat,
                minted: *old(minted) as nat,
            }) == Err::<Tally, SignatureBoundsError>(refusal),
        },
        (Tally {
            declared: *final(declared) as nat,
            minted: *final(minted) as nat,
        }) == clause_reached(
            *clause,
            depth as nat,
            Tally {
                declared: *old(declared) as nat,
                minted: *old(minted) as nat,
            },
        ),
        r is Ok ==> *final(declared) <= MAX_EFFECTS_PER_SIGNATURE && *final(minted)
            <= MAX_MINTS_PER_SIGNATURE,
    decreases clause,
{
    match clause {
        Clause::Effect { guard, target, mode, denomination, .. } => {
            match check_counted(guard, false, declared, minted) {
                Ok(()) => {},
                Err(refusal) => {
                    return Err(refusal);
                },
            }
            match check_target_bounds(target) {
                Ok(()) => {},
                Err(refusal) => {
                    return Err(refusal);
                },
            }
            match check_mode_bounds(mode) {
                Ok(()) => {},
                Err(refusal) => {
                    return Err(refusal);
                },
            }
            check_optional(denomination)
        },
        Clause::ForEach { guard, list, body } => {
            match check_optional(guard) {
                Ok(()) => {},
                Err(refusal) => {
                    return Err(refusal);
                },
            }
            match check_expr_bounds(list, 0) {
                Ok(()) => {},
                Err(refusal) => {
                    return Err(refusal);
                },
            }
            check_clause_bounds(body, depth + 1, declared, minted)
        },
        Clause::Requires { guard, rule } => {
            match check_counted(guard, false, declared, minted) {
                Ok(()) => {},
                Err(refusal) => {
                    return Err(refusal);
                },
            }
            check_rule_bounds(rule)
        },
        Clause::Mints { guard, claim } => {
            match check_counted(guard, true, declared, minted) {
                Ok(()) => {},
                Err(refusal) => {
                    return Err(refusal);
                },
            }
            check_expr_bounds(claim, 0)
        },
    }
}

/// The verdicts on the denominations a signature states, in order.
pub open spec fn denomination_verdicts(denominations: Seq<Option<Expr>>) -> Seq<
    Result<(), SignatureBoundsError>,
> {
    Seq::new(
        denominations.len(),
        |i: int|
            match denominations[i] {
                Some(expr) => expr_verdict(expr, 0),
                None => Ok(()),
            },
    )
}

/// The verdicts on the values a binding derives, in order.
pub open spec fn abi_verdicts(abi: Seq<AbiParam>) -> Seq<Result<(), SignatureBoundsError>> {
    Seq::new(
        abi.len(),
        |i: int|
            match abi[i] {
                AbiParam::Derived(expr) => expr_verdict(expr, 0),
                _ => Ok(()),
            },
    )
}

/// The verdicts on the grants a signature's issuances fold, in order.
pub open spec fn issuance_verdicts(issues: Seq<Issuance>) -> Seq<
    Result<(), SignatureBoundsError>,
> {
    Seq::new(issues.len(), |i: int| grants_verdict(issues[i].grants))
}

/// The verdict on everything a signature holds beside its clauses.
pub open spec fn tables_verdict(signature: MethodSignature) -> Result<(), SignatureBoundsError> {
    crate::verdict::followed_by(
        crate::verdict::first_refusal(expr_verdicts(signature.outputs@, 0)),
        crate::verdict::followed_by(
            crate::verdict::first_refusal(denomination_verdicts(signature.denominations@)),
            crate::verdict::followed_by(
                crate::verdict::first_refusal(abi_verdicts(signature.abi@)),
                if signature.issues@.len() > MAX_ISSUANCES_PER_SIGNATURE {
                    Err(SignatureBoundsError::TooManyIssuances)
                } else {
                    crate::verdict::first_refusal(issuance_verdicts(signature.issues@))
                },
            ),
        ),
    )
}

/// The count a walk of a signature's clauses starts from.
pub open spec fn nothing_counted() -> Tally {
    Tally { declared: 0, minted: 0 }
}

/// The verdict on a signature's structure: its tables, and then its
/// clauses.
pub open spec fn bounds_verdict(signature: MethodSignature) -> Result<(), SignatureBoundsError> {
    crate::verdict::followed_by(
        tables_verdict(signature),
        match clauses_tally(signature.effects@, 0, nothing_counted()) {
            Ok(_) => Ok(()),
            Err(refusal) => Err(refusal),
        },
    )
}

/// The denominations a signature states, under the expression caps.
fn check_denominations(denominations: &Vec<Option<Expr>>) -> (r: Result<(), SignatureBoundsError>)
    ensures
        r == crate::verdict::first_refusal(denomination_verdicts(denominations@)),
{
    let ghost verdicts = denomination_verdicts(denominations@);
    proof {
        crate::verdict::lemma_all(verdicts);
    }
    let mut i: usize = 0;
    while i < denominations.len()
        invariant
            i <= denominations.len(),
            verdicts == denomination_verdicts(denominations@),
            crate::verdict::first_refusal(verdicts.take(i as int)) is Ok,
        decreases denominations.len() - i,
    {
        proof {
            crate::verdict::lemma_one_more(verdicts, i as int);
        }
        match &denominations[i] {
            Some(expr) => match check_expr_bounds(expr, 0) {
                Ok(()) => {},
                Err(refusal) => {
                    return Err(refusal);
                },
            },
            None => {},
        }
        i = i + 1;
    }
    proof {
        crate::verdict::lemma_all(verdicts);
    }
    Ok(())
}

/// The values a binding derives, under the expression caps.
fn check_derived(abi: &Vec<AbiParam>) -> (r: Result<(), SignatureBoundsError>)
    ensures
        r == crate::verdict::first_refusal(abi_verdicts(abi@)),
{
    let ghost verdicts = abi_verdicts(abi@);
    proof {
        crate::verdict::lemma_all(verdicts);
    }
    let mut i: usize = 0;
    while i < abi.len()
        invariant
            i <= abi.len(),
            verdicts == abi_verdicts(abi@),
            crate::verdict::first_refusal(verdicts.take(i as int)) is Ok,
        decreases abi.len() - i,
    {
        proof {
            crate::verdict::lemma_one_more(verdicts, i as int);
        }
        match &abi[i] {
            AbiParam::Derived(expr) => match check_expr_bounds(expr, 0) {
                Ok(()) => {},
                Err(refusal) => {
                    return Err(refusal);
                },
            },
            _ => {},
        }
        i = i + 1;
    }
    proof {
        crate::verdict::lemma_all(verdicts);
    }
    Ok(())
}

/// The grants a signature's issuances fold, under the caps.
fn check_issuances(issues: &Vec<Issuance>) -> (r: Result<(), SignatureBoundsError>)
    ensures
        r == crate::verdict::first_refusal(issuance_verdicts(issues@)),
{
    let ghost verdicts = issuance_verdicts(issues@);
    proof {
        crate::verdict::lemma_all(verdicts);
    }
    let mut i: usize = 0;
    while i < issues.len()
        invariant
            i <= issues.len(),
            verdicts == issuance_verdicts(issues@),
            crate::verdict::first_refusal(verdicts.take(i as int)) is Ok,
        decreases issues.len() - i,
    {
        proof {
            crate::verdict::lemma_one_more(verdicts, i as int);
        }
        match check_grants_bounds(&issues[i].grants) {
            Ok(()) => {},
            Err(refusal) => {
                return Err(refusal);
            },
        }
        i = i + 1;
    }
    proof {
        crate::verdict::lemma_all(verdicts);
    }
    Ok(())
}

/// A signature's structure, under every cap the vocabulary fixes.
pub fn check_signature_bounds(signature: &MethodSignature) -> (r: Result<
    (),
    SignatureBoundsError,
>)
    ensures
        r == bounds_verdict(*signature),
{
    match check_each_expr(&signature.outputs) {
        Ok(()) => {},
        Err(refusal) => {
            return Err(refusal);
        },
    }
    match check_denominations(&signature.denominations) {
        Ok(()) => {},
        Err(refusal) => {
            return Err(refusal);
        },
    }
    match check_derived(&signature.abi) {
        Ok(()) => {},
        Err(refusal) => {
            return Err(refusal);
        },
    }
    if signature.issues.len() > MAX_ISSUANCES_PER_SIGNATURE {
        return Err(SignatureBoundsError::TooManyIssuances);
    }
    match check_issuances(&signature.issues) {
        Ok(()) => {},
        Err(refusal) => {
            return Err(refusal);
        },
    }
    let mut declared: usize = 0;
    let mut minted: usize = 0;
    match check_clause_bounds(&signature.effects, 0, &mut declared, &mut minted) {
        Ok(()) => Ok(()),
        Err(refusal) => Err(refusal),
    }
}

} // verus!
