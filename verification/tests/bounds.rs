//! What a signature may hold at all.
use vm_effects::dsl::{
    Clause, Expr, ModeExpr, RuleExpr, RuleLeaf, SlotRef, TargetExpr, MAX_CLAUSE_DEPTH,
    MAX_EFFECTS_PER_SIGNATURE, MAX_EXPR_DEPTH,
};
use vm_effects::publish::bounds::{check_clause_bounds, check_grants_bounds};
use vm_effects::effect::Moves;
use vm_effects::metadata::PackageMetadata;
use vm_effects::publish::{
    check_metadata, check_signature_bounds, MetadataError, SignatureBoundsError,
};
use vm_effects::resource::{
    GrantRuleExpr, GrantSubject, GrantedBehaviour, GrantsExpr, ResourceKind,
};
use vm_effects::rule::{always, never, MAX_RULE_BRANCHES, MAX_RULE_DEPTH, MAX_RULE_LEAVES};
use vm_effects::signature::{
    AbiParam, Issuance, Issued, MethodSignature, Totality, MAX_ISSUANCES_PER_SIGNATURE,
    MAX_MINTS_PER_SIGNATURE,
};
use vm_effects::types::{
    SlotId, Value, MAX_VALUE_BYTES, MAX_VALUE_DEPTH, MAX_VALUE_ITEMS, PACKAGE_SLOT_BASE,
};

/// What a package declaring this one method is told.
fn judged(signature: MethodSignature) -> Result<(), MetadataError> {
    let mut metadata = PackageMetadata::default();
    metadata.methods.insert("m".to_string(), signature);
    check_metadata(&metadata, &vec![])
}

/// Both sides of a bound: the structure at it is admitted, the one past it
/// refused.
fn assert_bounded(admitted: MethodSignature, refused: MethodSignature) {
    assert_eq!(judged(admitted), Ok(()));
    assert!(
        judged(refused).is_err(),
        "a structure past the bound was admitted"
    );
}

/// A signature whose only effect points at `expr`.
fn signature_over(expr: Expr) -> MethodSignature {
    MethodSignature {
        totality: Totality::Fallible,
        effects: vec![Clause::Effect {
            reach: None,
            guard: None,
            target: TargetExpr::Point(expr),
            mode: ModeExpr::Write { moves: Moves::Both },
            denomination: None,
        }],
        ..MethodSignature::default()
    }
}

/// A left-nested projection chain.
fn nested_projection(depth: usize) -> Expr {
    let mut expr = Expr::Arg(0);
    for _ in 0..depth {
        expr = Expr::Field(Box::new(expr), 0);
    }
    expr
}

fn read() -> Clause {
    Clause::Effect {
        reach: None,
        guard: None,
        target: TargetExpr::Point(Expr::SelfAddr),
        mode: ModeExpr::Read,
        denomination: None,
    }
}

fn nested_foreach(depth: usize) -> Clause {
    let mut clause = read();
    for _ in 0..depth {
        clause = Clause::ForEach {
            guard: None,
            list: Expr::Arg(0),
            body: vec![clause],
        };
    }
    clause
}

fn declaring(effects: Vec<Clause>) -> MethodSignature {
    MethodSignature {
        totality: Totality::Fallible,
        effects,
        ..MethodSignature::default()
    }
}

fn expression_nesting() {
    assert_bounded(
        signature_over(nested_projection(MAX_EXPR_DEPTH)),
        signature_over(nested_projection(MAX_EXPR_DEPTH + 1)),
    );
}

#[test]
fn bounds_expression_nesting_is_bounded_where_the_evaluator_bounds_it() {
    expression_nesting();
}

#[test]
fn publish_expression_nesting_is_bounded_where_the_evaluator_bounds_it() {
    expression_nesting();
}

fn abi_expressions() {
    let derived = |depth: usize| MethodSignature {
        totality: Totality::Fallible,
        abi: vec![AbiParam::Derived(nested_projection(depth))],
        ..MethodSignature::default()
    };
    assert_bounded(derived(MAX_EXPR_DEPTH), derived(MAX_EXPR_DEPTH + 1));
}

#[test]
fn bounds_abi_expressions_are_bounded_like_every_other_walk() {
    abi_expressions();
}

#[test]
fn publish_abi_expressions_are_bounded_like_every_other_walk() {
    abi_expressions();
}

fn clause_nesting() {
    assert_bounded(
        declaring(vec![nested_foreach(MAX_CLAUSE_DEPTH)]),
        declaring(vec![nested_foreach(MAX_CLAUSE_DEPTH + 1)]),
    );
}

#[test]
fn bounds_clause_nesting_is_bounded_where_the_evaluator_bounds_it() {
    clause_nesting();
}

#[test]
fn publish_clause_nesting_is_bounded_where_the_evaluator_bounds_it() {
    clause_nesting();
}

fn range_cap() {
    // No magnitude bound stands here: what bounds an evaluated cap is the
    // depth a footprint charges for it. The expression itself walks the
    // same structural bounds as the bounds beside it.
    let capped = |cap: Expr| {
        declaring(vec![Clause::Effect {
            reach: None,
            guard: None,
            target: TargetExpr::Range {
                owner: Expr::SelfAddr,
                collection: SlotRef::Fixed(SlotId(PACKAGE_SLOT_BASE)),
                material: vec![],
                lo: Expr::Literal(Value::U128(0)),
                hi: Expr::Literal(Value::U128(u128::MAX)),
                cap,
            },
            mode: ModeExpr::Read,
            denomination: None,
        }])
    };
    assert_bounded(
        capped(nested_projection(MAX_EXPR_DEPTH)),
        capped(nested_projection(MAX_EXPR_DEPTH + 1)),
    );
}

#[test]
fn bounds_a_range_cap_is_an_expression_under_the_expression_bounds() {
    range_cap();
}

#[test]
fn publish_a_range_cap_is_an_expression_under_the_expression_bounds() {
    range_cap();
}

fn wide_clause_tree() {
    let with = |count: usize| declaring((0..count).map(|_| read()).collect());
    assert_bounded(
        with(MAX_EFFECTS_PER_SIGNATURE),
        with(MAX_EFFECTS_PER_SIGNATURE + 1),
    );
}

#[test]
fn bounds_a_clause_tree_wider_than_a_signature_can_declare_is_refused() {
    wide_clause_tree();
}

#[test]
fn publish_a_clause_tree_wider_than_a_signature_can_declare_is_refused() {
    wide_clause_tree();
}

/// A gate mints one claim, or two where an instance widens to its
/// resource, so the cap is headroom.
#[test]
fn a_signature_minting_more_than_a_gate_needs_is_refused() {
    let with = |count: usize| {
        declaring(
            (0..count)
                .map(|_| Clause::Mints {
                    guard: None,
                    claim: Expr::SelfAddr,
                })
                .collect(),
        )
    };
    assert_bounded(
        with(MAX_MINTS_PER_SIGNATURE),
        with(MAX_MINTS_PER_SIGNATURE + 1),
    );
}

fn literal_nesting() {
    let literal = |depth: usize| {
        let mut value = Value::U64(0);
        for _ in 1..depth {
            value = Value::Tuple(vec![value]);
        }
        Expr::Literal(value)
    };
    assert_bounded(
        signature_over(literal(MAX_VALUE_DEPTH)),
        signature_over(literal(MAX_VALUE_DEPTH + 1)),
    );
}

#[test]
fn bounds_literal_nesting_is_bounded_where_admission_bounds_it() {
    literal_nesting();
}

#[test]
fn publish_literal_nesting_is_bounded_where_admission_bounds_it() {
    literal_nesting();
}

fn value_width() {
    let literal = |items: usize| Expr::Literal(Value::List(vec![Value::U64(0); items]));
    assert_bounded(
        signature_over(literal(MAX_VALUE_ITEMS)),
        signature_over(literal(MAX_VALUE_ITEMS + 1)),
    );

    let built = |items: usize| {
        Expr::List(
            (0..items)
                .map(|_| Expr::Literal(Value::U64(0)))
                .collect(),
        )
    };
    assert_bounded(
        signature_over(built(MAX_VALUE_ITEMS)),
        signature_over(built(MAX_VALUE_ITEMS + 1)),
    );

    let bytes = |len: usize| Expr::Literal(Value::Bytes(vec![0; len]));
    assert_bounded(
        signature_over(bytes(MAX_VALUE_BYTES)),
        signature_over(bytes(MAX_VALUE_BYTES + 1)),
    );
}

/// A value's width is bounded wherever one comes from: a declaration
/// assembled in memory, and a list built from the expression's own arity.
#[test]
fn bounds_a_value_wider_than_a_walk_is_charged_for_is_refused() {
    value_width();
}

#[test]
fn publish_a_value_wider_than_a_walk_is_charged_for_is_refused() {
    value_width();
}

fn rule_caps() {
    let guarded = |rule: RuleExpr| declaring(vec![Clause::Requires { guard: None, rule }]);
    let leaf = || RuleExpr::Require(RuleLeaf::Claim(Expr::Config(0)));
    let nest = |levels: usize| {
        let mut rule = leaf();
        for _ in 0..levels {
            rule = RuleExpr::CountOf {
                count: 1,
                rules: vec![rule],
            };
        }
        rule
    };
    let branching = |count: u32, branches: usize| RuleExpr::CountOf {
        count,
        rules: (0..branches).map(|_| leaf()).collect(),
    };

    assert!(judged(guarded(nest(MAX_RULE_DEPTH - 1))).is_ok());
    assert!(judged(guarded(nest(MAX_RULE_DEPTH))).is_err());
    assert!(judged(guarded(branching(1, MAX_RULE_BRANCHES))).is_ok());
    assert!(judged(guarded(branching(1, MAX_RULE_BRANCHES + 1))).is_err());

    // The degenerate thresholds a stored rule is refused for: one that
    // admits anyone, and one that admits no one.
    for count in [0, 3] {
        assert!(judged(guarded(branching(count, 2))).is_err());
    }
}

/// A declared threshold sits under the caps a stored one is decoded under.
#[test]
fn bounds_a_declared_rule_is_held_to_the_stored_rules_caps() {
    rule_caps();
}

#[test]
fn publish_a_declared_rule_is_held_to_the_stored_rules_caps() {
    rule_caps();
}

/// A granted rule is held to the leaves it seals as.
///
/// A configuration leaf on a holder behaviour carries an address and no
/// kind, so what it seals as is a threshold over both shapes a holding
/// takes: two leaves where the author wrote one.
#[test]
fn a_granted_rule_is_held_to_the_leaves_it_seals_as() {
    // Leaves in groups the branch cap admits, so what this varies is the
    // leaf count and nothing else.
    let leaves_of = |count: usize| {
        let leaf = || GrantRuleExpr::Require(GrantSubject::Config(0));
        let mut branches: Vec<GrantRuleExpr> = Vec::new();
        let mut left = count;
        while left > 0 {
            let group = left.min(MAX_RULE_BRANCHES);
            branches.push(GrantRuleExpr::CountOf {
                count: 1,
                rules: (0..group).map(|_| leaf()).collect(),
            });
            left -= group;
        }
        GrantRuleExpr::CountOf {
            count: 1,
            rules: branches,
        }
    };
    let granting = |behaviour, count: usize| {
        let mut grants = GrantsExpr::new();
        grants.set(behaviour, leaves_of(count));
        check_grants_bounds(&grants)
    };

    // A holder question doubles: half the budget is the ceiling.
    let half = MAX_RULE_LEAVES / 2;
    assert!(granting(GrantedBehaviour::Withdraw, half).is_ok());
    assert!(
        granting(GrantedBehaviour::Withdraw, half + 1).is_err(),
        "a set that seals past the caps is refused where it was written"
    );

    // An actor question reads the claim it was given, so its whole budget
    // is its own.
    assert!(granting(GrantedBehaviour::Mint, MAX_RULE_LEAVES).is_ok());
    assert!(granting(GrantedBehaviour::Mint, MAX_RULE_LEAVES + 1).is_err());
}

#[test]
fn every_bound_is_told_from_the_others() {
    let deep_literal = {
        let mut value = Value::U64(0);
        for _ in 0..MAX_VALUE_DEPTH {
            value = Value::Tuple(vec![value]);
        }
        Expr::Literal(value)
    };
    let issuance = || Issuance {
        mark: b"unit".to_vec(),
        kind: ResourceKind::Fungible,
        direction: Issued::Minted,
        grants: GrantsExpr::new(),
    };
    let issuing = |count: usize| MethodSignature {
        issues: (0..count).map(|_| issuance()).collect(),
        ..MethodSignature::default()
    };
    let mints = |count: usize| {
        declaring(
            (0..count)
                .map(|_| Clause::Mints {
                    guard: None,
                    claim: Expr::SelfAddr,
                })
                .collect(),
        )
    };
    for (signature, refusal) in [
        (
            signature_over(nested_projection(MAX_EXPR_DEPTH + 1)),
            SignatureBoundsError::ExprDepth,
        ),
        (signature_over(deep_literal), SignatureBoundsError::LiteralDepth),
        (
            signature_over(Expr::Literal(Value::Bytes(vec![0; MAX_VALUE_BYTES + 1]))),
            SignatureBoundsError::ValueWidth,
        ),
        (
            declaring(vec![nested_foreach(MAX_CLAUSE_DEPTH + 1)]),
            SignatureBoundsError::ClauseDepth,
        ),
        (
            declaring((0..=MAX_EFFECTS_PER_SIGNATURE).map(|_| read()).collect()),
            SignatureBoundsError::TooManyEffects,
        ),
        (
            mints(MAX_MINTS_PER_SIGNATURE + 1),
            SignatureBoundsError::TooManyMints,
        ),
        (
            issuing(MAX_ISSUANCES_PER_SIGNATURE + 1),
            SignatureBoundsError::TooManyIssuances,
        ),
        (
            declaring(vec![Clause::Requires {
                guard: None,
                rule: RuleExpr::CountOf {
                    count: 3,
                    rules: vec![RuleExpr::Require(RuleLeaf::Claim(Expr::SelfAddr))],
                },
            }]),
            SignatureBoundsError::RuleCaps,
        ),
    ] {
        assert_eq!(check_signature_bounds(&signature), Err(refusal));
    }
    assert_eq!(check_signature_bounds(&issuing(MAX_ISSUANCES_PER_SIGNATURE)), Ok(()));
}

#[test]
fn a_badge_a_badge_names_is_a_chain_too_deep() {
    let badge = |rules: GrantsExpr| {
        GrantRuleExpr::Require(GrantSubject::SelfBadge {
            mark: b"badge".to_vec(),
            kind: ResourceKind::Fungible,
            rules,
        })
    };
    let granting = |rule| {
        let mut grants = GrantsExpr::new();
        grants.set(GrantedBehaviour::Mint, rule);
        grants
    };
    assert_eq!(
        check_grants_bounds(&granting(badge(granting(GrantRuleExpr::Require(
            GrantSubject::SelfAddr
        ))))),
        Ok(())
    );
    assert_eq!(
        check_grants_bounds(&granting(badge(granting(badge(GrantsExpr::new()))))),
        Err(SignatureBoundsError::BadgeChainTooDeep)
    );
}

/// An absent entry withholds a supply behaviour and leaves a movement
/// open, so neither is spelled as the constant its absence says.
#[test]
fn an_entry_saying_what_its_absence_says_is_refused() {
    let granting = |behaviour, rule| {
        let mut grants = GrantsExpr::new();
        grants.set(behaviour, rule);
        check_grants_bounds(&grants)
    };
    let refused = Err(SignatureBoundsError::UnadmittedGrant);
    assert_eq!(granting(GrantedBehaviour::Mint, never()), refused);
    assert_eq!(granting(GrantedBehaviour::Withdraw, always()), refused);
    assert_eq!(granting(GrantedBehaviour::Mint, always()), Ok(()));
    assert_eq!(granting(GrantedBehaviour::Withdraw, never()), Ok(()));
}

/// Both counts are those reached at the clause refused first.
#[test]
fn a_refused_walk_leaves_the_counts_it_reached() {
    let mint = |claim| Clause::Mints { guard: None, claim };
    let deep = || nested_projection(MAX_EXPR_DEPTH + 1);
    let guarded = || Clause::Mints {
        guard: Some(Box::new(deep())),
        claim: Expr::SelfAddr,
    };
    let looped = |list, body| Clause::ForEach {
        guard: None,
        list,
        body,
    };
    let walked = |clauses: Vec<Clause>, depth, declared: usize, minted: usize| {
        let (mut declared, mut minted) = (declared, minted);
        let told = check_clause_bounds(&clauses, depth, &mut declared, &mut minted);
        (told, declared, minted)
    };
    // Accepted: every clause but the loop is counted.
    assert_eq!(
        walked(
            vec![read(), looped(Expr::Arg(0), vec![mint(Expr::SelfAddr)])],
            0,
            0,
            0
        ),
        (Ok(()), 2, 1)
    );
    // Refused at what it claims: counted. At its guard: not.
    let refused = Err(SignatureBoundsError::ExprDepth);
    assert_eq!(walked(vec![read(), mint(deep()), read()], 0, 0, 0), (refused, 2, 1));
    assert_eq!(walked(vec![read(), guarded(), read()], 0, 0, 0), (refused, 1, 0));
    // Refused inside a loop, and at the list of one.
    assert_eq!(
        walked(
            vec![looped(Expr::Arg(0), vec![read(), mint(deep())]), read()],
            0,
            0,
            0
        ),
        (refused, 2, 1)
    );
    assert_eq!(walked(vec![read(), looped(deep(), vec![read()])], 0, 0, 0), (refused, 1, 0));
    // Refused at either ceiling, and at the depth.
    assert_eq!(
        walked(vec![mint(Expr::SelfAddr)], 0, MAX_EFFECTS_PER_SIGNATURE, 0),
        (
            Err(SignatureBoundsError::TooManyEffects),
            MAX_EFFECTS_PER_SIGNATURE + 1,
            0
        )
    );
    assert_eq!(
        walked(vec![mint(Expr::SelfAddr)], 0, 0, MAX_MINTS_PER_SIGNATURE),
        (
            Err(SignatureBoundsError::TooManyMints),
            1,
            MAX_MINTS_PER_SIGNATURE + 1
        )
    );
    assert_eq!(
        walked(vec![read()], MAX_CLAUSE_DEPTH + 1, 3, 2),
        (Err(SignatureBoundsError::ClauseDepth), 3, 2)
    );
}
