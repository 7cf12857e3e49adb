//! Whether an export can be bound to what a method declares.
use vm_effects::dsl::{Clause, Expr, ModeExpr, RuleLeaf, TargetExpr};
use vm_effects::effect::{Moves, Presence};
use vm_effects::publish::{check_abi, AbiError};
use vm_effects::rule::Rule;
use vm_effects::signature::{AbiParam, MethodSignature, ParamType, Totality};

/// One ordinary effect clause, for the bindings that are about the
/// parameter rather than about what it points at.
fn clause() -> Clause {
    Clause::Effect {
        reach: None,
        guard: None,
        target: TargetExpr::Point(Expr::SelfAddr),
        mode: ModeExpr::Delta { moves: Moves::Both },
        denomination: None,
    }
}

fn signature(params: Vec<ParamType>, abi: Vec<AbiParam>) -> MethodSignature {
    MethodSignature {
        totality: Totality::Fallible,
        params,
        abi,
        effects: vec![clause()],
        ..MethodSignature::default()
    }
}

fn handle(clause: u32, site: u32) -> AbiParam {
    AbiParam::Handle { clause, site }
}

fn binding_resolves() {
    assert_eq!(
        check_abi(&signature(
            vec![ParamType::Bucket],
            vec![handle(0, 0), AbiParam::Bucket(0)],
        )),
        Ok(())
    );
    assert!(matches!(
        check_abi(&signature(vec![], vec![handle(1, 0)])),
        Err(AbiError::NoSuchClause { clause: 1, .. })
    ));
    assert!(matches!(
        check_abi(&signature(vec![ParamType::U64], vec![AbiParam::Bucket(0)])),
        Err(AbiError::NotABucket { param: 0, .. })
    ));
    assert!(matches!(
        check_abi(&signature(vec![], vec![AbiParam::Bucket(3)])),
        Err(AbiError::NoSuchParam { param: 3, .. })
    ));
}

#[test]
fn abi_a_binding_resolves_against_its_own_signature() {
    binding_resolves();
}

#[test]
fn publish_a_binding_resolves_against_its_own_signature() {
    binding_resolves();
}

/// Each shape a handle binding can name wrongly earns its own refusal,
/// saying what the author actually wrote.
#[test]
fn a_binding_names_the_shape_it_got_wrong() {
    // A site past the one an access has.
    assert!(matches!(
        check_abi(&signature(vec![], vec![handle(0, 1)])),
        Err(AbiError::NoSuchSite {
            clause: 0,
            site: 1,
            ..
        })
    ));

    // A clause that declares no capability at all, at any site.
    let conditional = MethodSignature {
        totality: Totality::Fallible,
        abi: vec![handle(0, 0)],
        effects: vec![Clause::Requires {
            guard: None,
            rule: Rule::Require(RuleLeaf::Presence {
                target: Box::new(TargetExpr::Point(Expr::SelfAddr)),
                expect: Presence::Present,
            }),
        }],
        ..MethodSignature::default()
    };
    assert!(matches!(
        check_abi(&conditional),
        Err(AbiError::NotACapability { clause: 0, .. })
    ));
}

#[test]
fn a_declared_site_is_borrowed_at_most_once() {
    // Two parameters onto one clause hand a body the same capability
    // twice.
    assert_eq!(
        check_abi(&signature(vec![], vec![handle(0, 0), handle(0, 0)])),
        Err(AbiError::SiteBorrowedTwice {
            position: 1,
            clause: 0,
            site: 0,
        })
    );
    // And one borrow of it is accepted, so the refusal is the repetition.
    assert_eq!(check_abi(&signature(vec![], vec![handle(0, 0)])), Ok(()));
}

fn bucket_once() {
    // A guest receiving one edge's bytes under two names.
    assert!(matches!(
        check_abi(&signature(
            vec![ParamType::Bucket],
            vec![AbiParam::Bucket(0), AbiParam::Bucket(0)],
        )),
        Err(AbiError::BucketCarriedTwice {
            param: 0,
            carried: 2
        })
    ));
    // Two buckets, each carried once, in either order.
    assert_eq!(
        check_abi(&signature(
            vec![ParamType::Bucket, ParamType::U128, ParamType::Bucket],
            vec![AbiParam::Bucket(2), AbiParam::Bucket(0)],
        )),
        Ok(())
    );
    // A bucket the declaring method forwards to a callee: its own guest
    // never reads the amount, so its own binding carries nothing.
    assert_eq!(
        check_abi(&signature(vec![ParamType::Bucket], vec![handle(0, 0)])),
        Ok(())
    );
}

#[test]
fn abi_a_bucket_is_carried_at_most_once() {
    bucket_once();
}

#[test]
fn publish_a_bucket_is_carried_at_most_once() {
    bucket_once();
}

#[test]
fn a_refusal_says_where_and_how_many() {
    assert_eq!(
        check_abi(&signature(vec![], vec![handle(0, 0), handle(7, 0)])),
        Err(AbiError::NoSuchClause {
            position: 1,
            clause: 7,
            declared: 1
        })
    );
    assert_eq!(
        check_abi(&signature(
            vec![ParamType::BytesExact(4)],
            vec![AbiParam::Bucket(0)]
        )),
        Err(AbiError::NotABucket {
            position: 0,
            param: 0,
            kind: "bytes"
        })
    );
    assert_eq!(
        check_abi(&signature(vec![], vec![AbiParam::Bucket(3)])),
        Err(AbiError::NoSuchParam {
            position: 0,
            param: 3,
            declared: 0
        })
    );
}

#[test]
fn a_guard_is_bound_only_where_a_clause_has_one() {
    let mut guarded = signature(vec![], vec![AbiParam::Guard(0)]);
    assert_eq!(
        check_abi(&guarded),
        Err(AbiError::UnguardedClause {
            position: 0,
            clause: 0
        })
    );
    guarded.effects = vec![Clause::Effect {
        reach: None,
        guard: Some(Box::new(Expr::Arg(0))),
        target: TargetExpr::Point(Expr::SelfAddr),
        mode: ModeExpr::Read,
        denomination: None,
    }];
    assert_eq!(check_abi(&guarded), Ok(()));
}

#[test]
fn a_loop_is_borrowed_at_the_accesses_of_its_body() {
    let looped = |abi| MethodSignature {
        abi,
        effects: vec![Clause::ForEach {
            guard: None,
            list: Expr::Arg(0),
            body: vec![
                clause(),
                Clause::Mints {
                    guard: None,
                    claim: Expr::SelfAddr,
                },
            ],
        }],
        ..MethodSignature::default()
    };
    assert_eq!(check_abi(&looped(vec![handle(0, 0)])), Ok(()));
    assert_eq!(
        check_abi(&looped(vec![handle(0, 1)])),
        Err(AbiError::NotALoopedAccess {
            position: 0,
            clause: 0,
            site: 1
        })
    );
    assert!(check_abi(&looped(vec![handle(0, 2)])).is_err());
}
