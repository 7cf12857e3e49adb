//! What one signature may declare.
use vm_effects::address::{Address, AddressClass};
use vm_effects::dsl::{Clause, Expr, ModeExpr, RuleExpr, RuleLeaf, SlotRef, TargetExpr};
use vm_effects::effect::{Moves, Presence};
use vm_effects::publish::{check_declarations, founds_its_resource, DeclarationError};
use vm_effects::resource::{
    GrantRuleExpr, GrantSubject, GrantedBehaviour, GrantsExpr, ResourceKind,
};
use vm_effects::signature::{AbiParam, Issuance, Issued, MethodSignature, ParamType, Totality};
use vm_effects::types::{package_slot, SlotId, Value, KERNEL_SLOT_BASE, PACKAGE_SLOT_BASE};
use vm_effects::vocabulary;

const VAULT: SlotId = SlotId(vocabulary::VAULT);
const CONFIG: SlotId = SlotId(vocabulary::CONFIG);
const AUTH: SlotId = SlotId(vocabulary::AUTH);
const RESOURCE: SlotId = SlotId(vocabulary::RESOURCE);
const NF_VAULT: SlotId = SlotId(vocabulary::NF_VAULT);
const INSTANCE: SlotId = SlotId(vocabulary::INSTANCE);
const HALT: SlotId = SlotId(vocabulary::HALT);
const PACKAGE_SLOT: SlotId = SlotId(vocabulary::PACKAGE_SLOT);
const NULLIFIER_SLOT: SlotId = SlotId(vocabulary::NULLIFIER_SLOT);

fn delta() -> ModeExpr {
    ModeExpr::Delta { moves: Moves::Both }
}

fn reserve() -> ModeExpr {
    ModeExpr::Reserve(Expr::Arg(0))
}

fn rewrite() -> ModeExpr {
    ModeExpr::Write { moves: Moves::Both }
}

/// A resource address, for a value cell to be keyed by.
fn a_resource() -> Expr {
    Expr::Literal(Value::Address(Address::new(
        [7; 31],
        AddressClass::Resource,
    )))
}

/// A leaf under the declaring instance, at `slot` and keyed by `material`.
fn own_point(slot: SlotId, material: Vec<Expr>) -> TargetExpr {
    TargetExpr::Point(Expr::ChildKey {
        owner: Box::new(Expr::SelfAddr),
        slot: SlotRef::Fixed(slot),
        material,
    })
}

/// The whole order-key space of a collection under the declaring instance.
fn own_interval(slot: SlotId, material: Vec<Expr>) -> TargetExpr {
    TargetExpr::Range {
        owner: Expr::SelfAddr,
        collection: SlotRef::Fixed(slot),
        material,
        lo: Expr::Literal(Value::U128(0)),
        hi: Expr::Literal(Value::U128(u128::MAX)),
        cap: Expr::Literal(Value::U64(4)),
    }
}

/// A signature declaring exactly one clause.
fn one_clause(target: TargetExpr, mode: ModeExpr, denomination: Option<Expr>) -> MethodSignature {
    MethodSignature {
        totality: Totality::Fallible,
        effects: vec![Clause::Effect {
            reach: None,
            guard: None,
            target,
            mode,
            denomination: denomination.map(Box::new),
        }],
        ..MethodSignature::default()
    }
}

/// Every target a condition names is declared as an access under
/// `Read` or `Write`, by a clause that fires whenever the condition
/// does.
fn a_condition_over_an_undeclared_or_incoherent_target_is_refused() {
    // Keyed by the resource it holds, so the movement below can
    // denominate it: a movement names what it moves.
    let cell = || {
        TargetExpr::Point(Expr::ChildKey {
            owner: Box::new(Expr::SelfAddr),
            slot: SlotRef::Fixed(SlotId(PACKAGE_SLOT_BASE)),
            material: vec![a_resource()],
        })
    };
    let access = |guard: Option<Expr>, mode| Clause::Effect {
        reach: None,
        guard: guard.map(Box::new),
        target: cell(),
        mode,
        denomination: None,
    };
    // The incoherent mode: a movement declares the cell, but a
    // movement cannot carry a judgment.
    let movement = || Clause::Effect {
        reach: None,
        guard: None,
        target: cell(),
        mode: ModeExpr::Delta { moves: Moves::Both },
        denomination: Some(Box::new(a_resource())),
    };
    let requires = |guard: Option<Expr>, rule| Clause::Requires {
        guard: guard.map(Box::new),
        rule,
    };
    let holds = |expect| {
        RuleExpr::Require(RuleLeaf::Presence {
            target: Box::new(cell()),
            expect,
        })
    };
    let satisfies = || {
        RuleExpr::Require(RuleLeaf::Stored {
            cell: match cell() {
                TargetExpr::Point(expr) => expr,
                _ => unreachable!(),
            },
        })
    };
    let declared = |clauses: Vec<Clause>| {
        check_declarations(&MethodSignature {
            effects: clauses,
            ..MethodSignature::default()
        })
    };
    let guard = || Expr::Eq(Box::new(Expr::Arg(0)), Box::new(Expr::Config(0)));
    let other = || Expr::Eq(Box::new(Expr::Arg(0)), Box::new(Expr::Config(1)));

    // Backed under a coherent mode: admitted, guarded or not — an
    // unguarded access fires whenever the condition does, and one
    // under the same guard fires exactly when it does.
    assert_eq!(
        declared(vec![
            access(None, ModeExpr::Read),
            requires(None, holds(Presence::Present)),
        ]),
        Ok(())
    );
    assert_eq!(
        declared(vec![
            access(None, ModeExpr::Read),
            requires(Some(guard()), satisfies()),
        ]),
        Ok(())
    );
    assert_eq!(
        declared(vec![
            access(Some(guard()), ModeExpr::Read),
            requires(Some(guard()), holds(Presence::Absent)),
        ]),
        Ok(())
    );

    // Nothing declares the target, a mode that cannot carry the
    // judgment declares it, or the access is guarded where the
    // condition is not: all one refusal.
    assert_eq!(
        declared(vec![requires(None, holds(Presence::Present))]),
        Err(DeclarationError::ConditionUndeclared { clause: 0 })
    );
    assert_eq!(
        declared(vec![movement(), requires(None, holds(Presence::Present))]),
        Err(DeclarationError::ConditionUndeclared { clause: 1 })
    );
    assert_eq!(
        declared(vec![
            access(Some(guard()), ModeExpr::Read),
            requires(None, satisfies()),
        ]),
        Err(DeclarationError::ConditionUndeclared { clause: 1 })
    );
    assert_eq!(
        declared(vec![
            access(Some(other()), ModeExpr::Read),
            requires(Some(guard()), holds(Presence::Present)),
        ]),
        Err(DeclarationError::ConditionUndeclared { clause: 1 })
    );
}

/// A condition that requires nothing, or names authority its own
/// caller supplies, is refused on its own terms.
#[test]
fn declaration_a_degenerate_or_caller_named_condition_is_refused() {
    let cell = || {
        TargetExpr::Point(Expr::ChildKey {
            owner: Box::new(Expr::SelfAddr),
            slot: SlotRef::Fixed(SlotId(PACKAGE_SLOT_BASE)),
            material: vec![],
        })
    };
    let access = |guard: Option<Expr>, mode| Clause::Effect {
        reach: None,
        guard: guard.map(Box::new),
        target: cell(),
        mode,
        denomination: None,
    };
    let requires = |guard: Option<Expr>, rule| Clause::Requires {
        guard: guard.map(Box::new),
        rule,
    };
    let holds = |presence| {
        RuleExpr::Require(RuleLeaf::Presence {
            target: Box::new(cell()),
            expect: presence,
        })
    };
    let declared = |clauses: Vec<Clause>| {
        check_declarations(&MethodSignature {
            effects: clauses,
            ..MethodSignature::default()
        })
    };

    // A condition requiring nothing.
    assert_eq!(
        declared(vec![
            access(None, ModeExpr::Read),
            requires(None, holds(Presence::Either)),
        ]),
        Err(DeclarationError::VacuousCondition { clause: 1 })
    );

    // Authority the caller names admits everyone — at a claim leaf
    // and at a stored leaf's cell alike.
    assert_eq!(
        declared(vec![requires(None, RuleExpr::Require(RuleLeaf::Claim(Expr::Arg(0))))]),
        Err(DeclarationError::CallerNamedCondition { clause: 0 })
    );
    assert_eq!(
        declared(vec![requires(
            None,
            RuleExpr::Require(RuleLeaf::Stored { cell: Expr::Arg(0) })
        )]),
        Err(DeclarationError::CallerNamedCondition { clause: 0 })
    );
}

/// A mark is a resource's own name, and the derivation folds it as
/// one part of the material. An unmarked issuance would fold to no
/// material at all — an address reached by saying less rather than
/// by naming something — so publish refuses it and the mark's
/// encoding stays one rule with no case in it.
#[test]
fn declaration_an_issuance_under_no_mark_is_refused() {
    let issues = |mark: &[u8]| {
        check_declarations(&MethodSignature {
            issues: vec![Issuance {
                mark: mark.to_vec(),
                kind: ResourceKind::Fungible,
                direction: Issued::Minted,
                grants: minting(),
            }],
            ..MethodSignature::default()
        })
    };
    assert_eq!(issues(b"unit"), Ok(()));
    assert_eq!(issues(b""), Err(DeclarationError::UnmarkedIssuance));
}

/// The entry a resource grants for the direction its issuer takes.
fn minting() -> GrantsExpr {
    let mut grants = GrantsExpr::new();
    grants.set(
        GrantedBehaviour::Mint,
        GrantRuleExpr::Require(GrantSubject::SelfAddr),
    );
    grants
}

/// Absence withholds, so a resource nobody may mint is one granting
/// no `Mint` entry — and a body that mints one is an author who
/// wrote the withholding and the mint together. Refused here, where
/// they wrote it, rather than left for a caller to meet.
///
/// Exhaustive over the directions on purpose: issuance acts through
/// no site, so it inherits nothing from the capability matrix and
/// every arm this refusal has is one this case has to name.
#[test]
fn issuing_a_resource_whose_entry_withholds_it_is_refused() {
    let issues = |direction, grants: GrantsExpr| {
        check_declarations(&MethodSignature {
            issues: vec![Issuance {
                mark: b"unit".to_vec(),
                kind: ResourceKind::Fungible,
                direction,
                grants,
            }],
            ..MethodSignature::default()
        })
    };
    let burning = || {
        let mut grants = GrantsExpr::new();
        grants.set(
            GrantedBehaviour::Burn,
            GrantRuleExpr::Require(GrantSubject::SelfAddr),
        );
        grants
    };
    let both = || {
        let mut grants = minting();
        grants.set(
            GrantedBehaviour::Burn,
            GrantRuleExpr::Require(GrantSubject::SelfAddr),
        );
        grants
    };

    assert_eq!(issues(Issued::Minted, minting()), Ok(()));
    assert_eq!(issues(Issued::Burned, burning()), Ok(()));
    assert_eq!(issues(Issued::Either, both()), Ok(()));

    // A capped supply is exactly the absent `Mint` entry, so a body
    // minting one meets the refusal however else the resource is
    // granted.
    for grants in [GrantsExpr::new(), burning()] {
        assert_eq!(
            issues(Issued::Minted, grants),
            Err(DeclarationError::IssuanceUnadmitted(GrantedBehaviour::Mint))
        );
    }
    for grants in [GrantsExpr::new(), minting()] {
        assert_eq!(
            issues(Issued::Burned, grants),
            Err(DeclarationError::IssuanceUnadmitted(GrantedBehaviour::Burn))
        );
    }
    // A body reaching both ways answers to both entries, and the
    // first one missing is the one it hears about.
    assert_eq!(
        issues(Issued::Either, minting()),
        Err(DeclarationError::IssuanceUnadmitted(GrantedBehaviour::Burn))
    );
    assert_eq!(
        issues(Issued::Either, burning()),
        Err(DeclarationError::IssuanceUnadmitted(GrantedBehaviour::Mint))
    );
}

/// A mint is justified by a condition the same declaration carries,
/// or it does not publish: identity takes the stored rule, a badge
/// takes that plus possession keyed by the same expression.
fn a_mint_no_condition_justifies_is_refused() {
    let auth_cell = || Expr::ChildKey {
        owner: Box::new(Expr::SelfAddr),
        slot: SlotRef::Fixed(AUTH),
        material: vec![],
    };
    let read = |target| Clause::Effect {
        reach: None,
        guard: None,
        target,
        mode: ModeExpr::Read,
        denomination: None,
    };
    let satisfies = || Clause::Requires {
        guard: None,
        rule: RuleExpr::Require(RuleLeaf::Stored { cell: auth_cell() }),
    };
    let vault = |badge: Expr| {
        TargetExpr::Point(Expr::ChildKey {
            owner: Box::new(Expr::SelfAddr),
            slot: SlotRef::Fixed(VAULT),
            material: vec![badge],
        })
    };
    let read_vault = |badge: &dyn Fn() -> Expr| Clause::Effect {
        reach: None,
        guard: None,
        target: vault(badge()),
        mode: ModeExpr::Read,
        denomination: Some(Box::new(badge())),
    };
    let holds = |target| Clause::Requires {
        guard: None,
        rule: RuleExpr::Require(RuleLeaf::Presence {
            target: Box::new(target),
            expect: Presence::Present,
        }),
    };
    let mints = |claim| Clause::Mints { guard: None, claim };
    let declared = |clauses: Vec<Clause>| {
        check_declarations(&MethodSignature {
            effects: clauses,
            ..MethodSignature::default()
        })
    };

    // Identity: the stored rule alone justifies it.
    assert_eq!(
        declared(vec![
            read(TargetExpr::Point(auth_cell())),
            satisfies(),
            mints(Expr::SelfAddr),
        ]),
        Ok(())
    );
    // No stored-rule condition beside it: forgeable identity.
    assert_eq!(
        declared(vec![mints(Expr::SelfAddr)]),
        Err(DeclarationError::UnjustifiedMint { clause: 0 })
    );
    assert_eq!(
        declared(vec![
            Clause::Requires {
                guard: None,
                rule: RuleExpr::Require(RuleLeaf::Claim(Expr::Config(0))),
            },
            mints(Expr::SelfAddr),
        ]),
        Err(DeclarationError::UnjustifiedMint { clause: 1 }),
        "a claim-only rule verifies no stored authority"
    );

    // A badge: the possession condition, keyed by the same
    // expression the claim names.
    let badge_mint = |possession_key: &dyn Fn() -> Expr| {
        declared(vec![
            read(TargetExpr::Point(auth_cell())),
            read_vault(&|| Expr::Config(0)),
            read_vault(possession_key),
            satisfies(),
            holds(vault(possession_key())),
            mints(Expr::Config(0)),
        ])
    };
    assert_eq!(badge_mint(&|| Expr::Config(0)), Ok(()));
    assert_eq!(
        badge_mint(&|| Expr::Config(1)),
        Err(DeclarationError::MintUnheld { clause: 5 }),
        "possession of some other cell holds nothing about this claim"
    );
    // Possession required, but never stated at all.
    assert_eq!(
        declared(vec![
            read(TargetExpr::Point(auth_cell())),
            satisfies(),
            mints(Expr::Config(0)),
        ]),
        Err(DeclarationError::MintUnheld { clause: 2 })
    );
}

/// What a total mark cannot survive, read off the declaration rather
/// than off the code.
///
/// A leg reads the mark and commits without waiting, so what it has
/// to exclude is every verdict that could still land *inside* its
/// own execution. The artifact scan covers the one that leaves the
/// type system — a trap — and this is the one it cannot see: a
/// condition no earlier stage can answer.
///
/// Which conditions those are is the placement's answer rather than
/// this check's. A claim reads the node's own signed evidence, so
/// admission decides it; a presence reads committed state, so
/// materialization does; both land before anything commits. A
/// *stored* rule needs the session, and only the declaring node's
/// own walk holds one.
#[test]
fn a_total_mark_survives_every_verdict_reached_before_its_leg() {
    let total = |signature: MethodSignature| MethodSignature {
        totality: Totality::Total,
        ..signature
    };
    let leaf = || {
        TargetExpr::Point(Expr::ChildKey {
            owner: Box::new(Expr::SelfAddr),
            slot: SlotRef::Fixed(SlotId(PACKAGE_SLOT_BASE)),
            material: vec![],
        })
    };
    let requiring = |rule| {
        total(MethodSignature {
            effects: vec![
                Clause::Effect {
                    reach: None,
                    guard: None,
                    target: leaf(),
                    mode: ModeExpr::Read,
                    denomination: None,
                },
                Clause::Requires { guard: None, rule },
            ],
            ..MethodSignature::default()
        })
    };

    // The shape that admits: public, and answering for itself.
    assert_eq!(
        check_declarations(&total(MethodSignature::default())),
        Ok(())
    );
    // does: both land before this method's leg runs, so the mark
    // stands beside either.
    assert_eq!(
        check_declarations(&requiring(RuleExpr::Require(RuleLeaf::Claim(Expr::SelfAddr)))),
        Ok(())
    );
    assert_eq!(
        check_declarations(&requiring(RuleExpr::Require(RuleLeaf::Presence {
            target: Box::new(leaf()),
            expect: Presence::Present,
        }))),
        Ok(())
    );

    // A stored rule needs the session, so the verdict is this
    // method's own walk's — reached after a caller may already have
    // committed on the strength of the mark.
    assert_eq!(
        check_declarations(&requiring(RuleExpr::Require(RuleLeaf::Stored {
            cell: Expr::ChildKey {
                owner: Box::new(Expr::SelfAddr),
                slot: SlotRef::Fixed(SlotId(PACKAGE_SLOT_BASE)),
                material: vec![],
            },
        }))),
        Err(DeclarationError::ConditionalTotality),
    );

    // And a reservation, for the reason the mark is actually about:
    // it is a verdict on the caller's own request.
    assert_eq!(
        check_declarations(&total(MethodSignature {
            effects: vec![Clause::Effect {
                reach: None,
                guard: None,
                target: leaf(),
                mode: ModeExpr::Reserve(Expr::Literal(Value::U128(5))),
                denomination: Some(Box::new(Expr::Config(0))),
            }],
            ..MethodSignature::default()
        })),
        Err(DeclarationError::ConditionalTotality),
    );
}

/// A presence is about whether the state a target names holds
/// anything, and each of the three shapes answers that: a cell is
/// there or is not, an entry is there or is not, and an interval
/// holds an entry or holds none.
#[test]
fn a_presence_is_asked_of_every_shape_a_target_names() {
    let declared = |target: &dyn Fn() -> TargetExpr, requires| {
        check_declarations(&MethodSignature {
            effects: vec![
                Clause::Effect {
                    reach: None,
                    guard: None,
                    target: target(),
                    mode: ModeExpr::Write { moves: Moves::Both },
                    denomination: None,
                },
                Clause::Requires {
                    guard: None,
                    rule: RuleExpr::Require(RuleLeaf::Presence {
                        target: Box::new(target()),
                        expect: requires,
                    }),
                },
            ],
            ..MethodSignature::default()
        })
    };
    let point = || TargetExpr::Point(Expr::ChildKey {
        owner: Box::new(Expr::SelfAddr),
        slot: SlotRef::Fixed(SlotId(PACKAGE_SLOT_BASE)),
        material: vec![],
    });
    let entry = || TargetExpr::Entry {
        owner: Expr::SelfAddr,
        collection: SlotRef::Fixed(SlotId(PACKAGE_SLOT_BASE)),
        material: vec![],
        order: Expr::Literal(Value::U128(7)),
    };
    let range = || TargetExpr::Range {
        owner: Expr::SelfAddr,
        collection: SlotRef::Fixed(SlotId(PACKAGE_SLOT_BASE)),
        material: vec![],
        lo: Expr::Literal(Value::U128(0)),
        hi: Expr::Literal(Value::U128(u128::MAX)),
        cap: Expr::Literal(Value::U64(4)),
    };

    for requires in [Presence::Absent, Presence::Present] {
        assert_eq!(declared(&point, requires), Ok(()), "{requires:?}");
        assert_eq!(declared(&entry, requires), Ok(()), "{requires:?}");
        assert_eq!(declared(&range, requires), Ok(()), "{requires:?}");
    }
}

/// "Create it if absent, otherwise update it" is two writes on one
/// cell requiring opposite presences, and it is not a contradiction:
/// no evaluation declares both. Complementarity is syntactic,
/// because publish has no arguments — the same standard the target
/// comparison beside it holds to.
fn complementary_guards_carry_opposite_presences_and_nothing_else_does() {
    let cond = || Expr::Eq(Box::new(Expr::Arg(0)), Box::new(Expr::Config(0)));
    let target = || {
        TargetExpr::Point(Expr::ChildKey {
            owner: Box::new(Expr::SelfAddr),
            slot: SlotRef::Fixed(SlotId(PACKAGE_SLOT_BASE)),
            material: vec![],
        })
    };
    let write = |guard: Option<Expr>, presence| Clause::Requires {
        guard: guard.map(Box::new),
        rule: RuleExpr::Require(RuleLeaf::Presence {
            target: Box::new(target()),
            expect: presence,
        }),
    };
    // The one access every condition above is backed by: unguarded,
    // so it fires whenever any of them does.
    let declared = |conditions: Vec<Clause>| {
        let mut effects = vec![Clause::Effect {
            reach: None,
            guard: None,
            target: target(),
            mode: ModeExpr::Write { moves: Moves::Both },
            denomination: None,
        }];
        effects.extend(conditions);
        check_declarations(&MethodSignature {
            effects,
            ..MethodSignature::default()
        })
    };

    // What an `if`/`else` emits, in either order.
    let negated = || Expr::Not(Box::new(cond()));
    assert_eq!(
        declared(vec![
            write(Some(cond()), Presence::Absent),
            write(Some(negated()), Presence::Present),
        ]),
        Ok(())
    );
    assert_eq!(
        declared(vec![
            write(Some(negated()), Presence::Present),
            write(Some(cond()), Presence::Absent),
        ]),
        Ok(())
    );

    // Two guards that are merely different can both hold, so the
    // contradiction stands.
    let other = Expr::Eq(Box::new(Expr::Arg(1)), Box::new(Expr::Config(0)));
    assert_eq!(
        declared(vec![
            write(Some(cond()), Presence::Absent),
            write(Some(other), Presence::Present),
        ]),
        Err(DeclarationError::PresenceConflict)
    );

    // And a guard is complementary to nothing when the other clause
    // fires always.
    assert_eq!(
        declared(vec![
            write(Some(cond()), Presence::Absent),
            write(None, Presence::Present),
        ]),
        Err(DeclarationError::PresenceConflict)
    );
}

/// Every pair of writes that can both fire is compared, not just the
/// first that meets.
///
/// Complementarity is a relation between two clauses rather than a
/// property of the target they share, so a clause complementary to
/// one of the others still meets all the rest — and a fold that
/// stopped at the first meeting would carry a contradiction past the
/// gate for the evaluated set to find later, where an author cannot
/// hear it.
fn a_write_meets_every_other_write_it_can_fire_beside() {
    let cond = || Expr::Eq(Box::new(Expr::Arg(0)), Box::new(Expr::Config(0)));
    let write = |guard: Option<Expr>, presence| Clause::Requires {
        guard: guard.map(Box::new),
        rule: RuleExpr::Require(RuleLeaf::Presence {
            target: Box::new(own_point(package_slot(0), vec![])),
            expect: presence,
        }),
    };
    let declared = |conditions: Vec<Clause>| {
        let mut effects = vec![Clause::Effect {
            reach: None,
            guard: None,
            target: own_point(package_slot(0), vec![]),
            mode: ModeExpr::Write { moves: Moves::Both },
            denomination: None,
        }];
        effects.extend(conditions);
        check_declarations(&MethodSignature {
            effects,
            ..MethodSignature::default()
        })
    };

    // The arms of one branch, and a third clause that fires always.
    // It meets the first, which agrees with it — and contradicts the
    // second, which is the pair the fold would never have asked
    // about.
    assert_eq!(
        declared(vec![
            write(Some(cond()), Presence::Absent),
            write(Some(Expr::Not(Box::new(cond()))), Presence::Present),
            write(None, Presence::Absent),
        ]),
        Err(DeclarationError::PresenceConflict)
    );
    // The same three in the order that hides it best: the always-
    // firing clause is written first, so the arm that agrees with it
    // is met before the arm that does not.
    assert_eq!(
        declared(vec![
            write(None, Presence::Absent),
            write(Some(cond()), Presence::Absent),
            write(Some(Expr::Not(Box::new(cond()))), Presence::Present),
        ]),
        Err(DeclarationError::PresenceConflict)
    );
    // And the shape that is not a contradiction still stands beside
    // a third clause nothing disagrees with.
    assert_eq!(
        declared(vec![
            write(Some(cond()), Presence::Absent),
            write(Some(Expr::Not(Box::new(cond()))), Presence::Present),
        ]),
        Ok(())
    );
}

/// A declaration states an access some execution can hold, or it does
/// not publish.
///
/// The world hands out one handle per declared access and reads its
/// type off the target's shape and the mode. A pairing it has no
/// handle for is a clause every call aborts at.
fn a_pairing_no_handle_is_built_for_does_not_publish() {
    let declared = |target, mode, denomination: Option<Expr>| {
        check_declarations(&MethodSignature {
            effects: vec![Clause::Effect {
                reach: None,
                guard: None,
                target,
                mode,
                denomination: denomination.map(Box::new),
            }],
            ..MethodSignature::default()
        })
    };
    let entry = || TargetExpr::Entry {
        owner: Expr::SelfAddr,
        collection: SlotRef::Fixed(package_slot(0)),
        material: vec![a_resource()],
        order: Expr::Literal(Value::U128(1)),
    };
    let interval = || own_interval(package_slot(1), vec![a_resource()]);
    let refused = Err(DeclarationError::UnsupportedAccess { clause: 0 });

    // Value moves through a leaf, never through an interval: a
    // collection's entries move by being named, which is what a
    // rewrite of the interval is.
    let shapes: [&dyn Fn() -> TargetExpr; 2] = [&entry, &interval];
    for target in shapes {
        for mode in [delta, reserve] {
            assert_eq!(
                declared(target(), mode(), Some(a_resource())),
                refused,
                "{:?} {:?}",
                target(),
                mode()
            );
        }
        // The two it does have.
        assert_eq!(declared(target(), ModeExpr::Read, None), Ok(()));
        assert_eq!(
            declared(
                target(),
                ModeExpr::Write { moves: Moves::Both },
                Some(a_resource()),
            ),
            Ok(())
        );
    }
}

/// Trap freedom for a total leg rests on every declared handle being
/// materialized, and a guarded-out clause materializes none. The
/// mark and the precision are the trade.
fn a_total_method_carries_no_guard() {
    let guarded = Clause::Effect {
        reach: None,
        guard: Some(Box::new(Expr::Eq(
            Box::new(Expr::Arg(0)),
            Box::new(Expr::Config(0)),
        ))),
        target: TargetExpr::Point(Expr::SelfAddr),
        mode: ModeExpr::Read,
        denomination: None,
    };
    assert_eq!(
        check_declarations(&MethodSignature {
            totality: Totality::Total,
            effects: vec![guarded],
            ..MethodSignature::default()
        }),
        Err(DeclarationError::GuardedTotality)
    );

    // The binding alone is enough: it is the parameter an absent
    // capability travels beside.
    assert_eq!(
        check_declarations(&MethodSignature {
            totality: Totality::Total,
            abi: vec![AbiParam::Guard(0)],
            effects: vec![Clause::Effect {
                reach: None,
                guard: None,
                target: TargetExpr::Point(Expr::SelfAddr),
                mode: ModeExpr::Read,
                denomination: None,
            }],
            ..MethodSignature::default()
        }),
        Err(DeclarationError::GuardedTotality)
    );
}

/// Metadata can be authored rather than derived, so the
/// contradiction the macro refuses at the second call site is
/// refused here too — against the target expressions, since publish
/// has no arguments to evaluate them with.
fn opposite_presence_requirements_on_one_target_do_not_publish() {
    let cell = |material| {
        TargetExpr::Point(Expr::ChildKey {
            owner: Box::new(Expr::SelfAddr),
            slot: SlotRef::Fixed(SlotId(PACKAGE_SLOT_BASE)),
            material,
        })
    };
    let write = |presence| Clause::Requires {
        guard: None,
        rule: RuleExpr::Require(RuleLeaf::Presence {
            target: Box::new(cell(vec![])),
            expect: presence,
        }),
    };
    let access = |material| Clause::Effect {
        reach: None,
        guard: None,
        target: cell(material),
        mode: ModeExpr::Write { moves: Moves::Both },
        denomination: None,
    };
    let declared = |conditions: Vec<Clause>| {
        let mut effects = vec![access(vec![])];
        effects.extend(conditions);
        check_declarations(&MethodSignature {
            effects,
            ..MethodSignature::default()
        })
    };

    assert_eq!(
        declared(vec![write(Presence::Absent), write(Presence::Present)]),
        Err(DeclarationError::PresenceConflict)
    );
    assert_eq!(
        declared(vec![write(Presence::Present), write(Presence::Absent)]),
        Err(DeclarationError::PresenceConflict)
    );

    // A requirement still meets its opposite across an agreeing one
    // written between them.
    assert_eq!(
        declared(vec![
            write(Presence::Absent),
            write(Presence::Absent),
            write(Presence::Present),
        ]),
        Err(DeclarationError::PresenceConflict)
    );

    // What is not a contradiction: the same requirement twice, and
    // two requirements on targets that are not the same expression.
    assert_eq!(
        declared(vec![write(Presence::Absent), write(Presence::Absent)]),
        Ok(())
    );
    assert_eq!(
        declared(vec![
            access(vec![Expr::Config(0)]),
            write(Presence::Absent),
            Clause::Requires {
                guard: None,
                rule: RuleExpr::Require(RuleLeaf::Presence {
                    target: Box::new(cell(vec![Expr::Config(0)])),
                    expect: Presence::Present,
                }),
            },
        ]),
        Ok(())
    );
}

/// A denomination list is read at the positions it indexes, so the
/// two ways it can fail to index anything are refused at publish.
///
/// A published package could carry a hand-written metadata section,
/// so neither is a fact about what the tracer emits: what admission
/// reads has to line up with the parameters whatever wrote it.
fn a_denomination_names_a_parameter_that_carries_value() {
    let denominating = |params: Vec<ParamType>, denominations: Vec<Option<Expr>>| {
        check_declarations(&MethodSignature {
            params,
            denominations,
            ..MethodSignature::default()
        })
    };

    // No list at all is the method that fixes nothing, which is most
    // of them.
    assert_eq!(denominating(vec![ParamType::Bucket], vec![]), Ok(()));
    // A list covering the parameters, fixing the one that carries
    // value and leaving the other open.
    assert_eq!(
        denominating(
            vec![ParamType::Bucket, ParamType::U128],
            vec![Some(Expr::Config(0)), None]
        ),
        Ok(())
    );

    // A list that does not cover them indexes positions nobody agrees
    // on.
    assert_eq!(
        denominating(
            vec![ParamType::Bucket, ParamType::U128],
            vec![Some(Expr::Config(0))]
        ),
        Err(DeclarationError::DenominationArity {
            expected: 2,
            found: 1
        })
    );
    // A denomination on a position that carries no value denominates
    // nothing.
    assert_eq!(
        denominating(
            vec![ParamType::Bucket, ParamType::U128],
            vec![None, Some(Expr::Config(0))]
        ),
        Err(DeclarationError::DenominationKind {
            param: 1,
            kind: "u128"
        })
    );
    // Both edge kinds carry value, so both take one.
    assert_eq!(
        denominating(vec![ParamType::NfBucket], vec![Some(Expr::Config(0))]),
        Ok(())
    );
}

/// Whether a signature is refused for naming a protocol cell in a
/// shape that cell does not have.
fn misshapen(signature: &MethodSignature) -> bool {
    matches!(
        check_declarations(signature),
        Err(DeclarationError::ProtocolSlotShape { .. })
    )
}

/// The protocol's value cells, and the shape each one has.
///
/// Exhaustive over the three on purpose. The corpus declares a vault
/// in two of its four modes and reaches the claims cell without ever
/// opening it, so a rule about the rest would be a rule nothing
/// holds.
#[test]
fn declaration_a_value_cell_is_keyed_by_what_it_holds() {
    // A vault is keyed by the resource it holds and says so in
    // every mode it is reached in — a read included, because a read
    // of a cell that says nothing is a read of bytes, and a vault
    // has no byte surface for one to come through.
    for slot in [VAULT] {
        for mode in [rewrite, delta, reserve] {
            let keyed = || own_point(slot, vec![a_resource()]);
            assert_eq!(
                check_declarations(&one_clause(keyed(), mode(), Some(a_resource()))),
                Ok(()),
                "{slot:?} {:?}",
                mode()
            );
            // Keyed by one resource and denominated in another: two
            // answers to what one leaf holds.
            assert!(misshapen(&one_clause(
                keyed(),
                mode(),
                Some(Expr::Arg(0))
            )));
            // And no answer at all.
            assert!(misshapen(&one_clause(keyed(), mode(), None)));
        }
        // A read says it too: which handle a clause materializes
        // turns on the denomination, so a read that said nothing
        // would come back as bytes.
        let read = |target, denomination| one_clause(target, ModeExpr::Read, denomination);
        assert_eq!(
            check_declarations(&read(
                own_point(slot, vec![a_resource()]),
                Some(a_resource())
            )),
            Ok(())
        );
        assert!(misshapen(&read(own_point(slot, vec![a_resource()]), None)));
        // Value is never keyed by nothing, and never a collection.
        assert!(misshapen(&read(own_point(slot, vec![]), None)));
        assert!(misshapen(&read(
            own_interval(slot, vec![a_resource()]),
            Some(a_resource())
        )));
    }

    // Holdings are the same statement in collection form: one
    // resource's instances, in the interval narrowed by it.
    let holdings = || own_interval(NF_VAULT, vec![a_resource()]);
    let write = || ModeExpr::Write { moves: Moves::Both };
    assert_eq!(
        check_declarations(&one_clause(holdings(), write(), Some(a_resource()))),
        Ok(())
    );
    assert!(misshapen(&one_clause(
        own_point(NF_VAULT, vec![a_resource()]),
        write(),
        Some(a_resource())
    )));
    assert!(misshapen(&one_clause(
        holdings(),
        ModeExpr::Delta { moves: Moves::Both },
        Some(a_resource())
    )));
}

/// The protocol's cells that hold no value, and the shape each one
/// has.
///
/// Exhaustive over the rest of the vocabulary, on the same terms as
/// the value cells beside it.
fn a_protocol_cell_holding_no_value_is_declared_in_its_own_shape() {
    let write = || ModeExpr::Write { moves: Moves::Both };
    let plain = |target, mode| one_clause(target, mode, None);
    // A write that creates: the access, and the one-way door beside
    // it as the condition it now is.
    let creating = |target: &dyn Fn() -> TargetExpr, denomination: Option<Expr>| MethodSignature {
        totality: Totality::Fallible,
        effects: vec![
            Clause::Effect {
                reach: None,
                guard: None,
                target: target(),
                mode: ModeExpr::Write { moves: Moves::Both },
                denomination: denomination.map(Box::new),
            },
            Clause::Requires {
                guard: None,
                rule: RuleExpr::Require(RuleLeaf::Presence {
                    target: Box::new(target()),
                    expect: Presence::Absent,
                }),
            },
        ],
        ..MethodSignature::default()
    };

    // A configuration leaf is read, written once where absent, and
    // never rewritten; a stored authority cell is read or rewritten
    // whole. Neither is keyed by anything and neither holds value.
    assert_eq!(
        check_declarations(&plain(own_point(CONFIG, vec![]), ModeExpr::Read)),
        Ok(())
    );
    assert_eq!(
        check_declarations(&creating(&|| own_point(CONFIG, vec![]), None)),
        Ok(())
    );
    assert!(misshapen(&plain(own_point(CONFIG, vec![]), write())));
    for mode in [ModeExpr::Read, write()] {
        assert_eq!(
            check_declarations(&plain(own_point(AUTH, vec![]), mode)),
            Ok(())
        );
    }
    assert_eq!(
        check_declarations(&creating(&|| own_point(AUTH, vec![]), None)),
        Ok(())
    );
    assert!(misshapen(&plain(own_point(AUTH, vec![]), ModeExpr::Delta { moves: Moves::Both })));
    assert!(misshapen(&plain(
        own_point(AUTH, vec![a_resource()]),
        write()
    )));

    // A record and an instance's data are written where the thing
    // they describe is not there yet, and not again.
    let record: &dyn Fn() -> Vec<Expr> = &|| vec![a_resource()];
    let data: &dyn Fn() -> Vec<Expr> = &|| vec![a_resource(), Expr::Arg(0)];
    for (slot, material) in [(RESOURCE, record), (INSTANCE, data)] {
        let keyed = || own_point(slot, material());
        assert_eq!(
            check_declarations(&creating(&keyed, None)),
            Ok(()),
            "{slot:?}"
        );
        assert_eq!(
            check_declarations(&plain(keyed(), ModeExpr::Read)),
            Ok(()),
            "{slot:?}"
        );
        assert!(misshapen(&plain(keyed(), write())));
        // Nothing here holds value, so nothing here denominates.
        assert!(misshapen(&creating(&keyed, Some(a_resource()))));
    }
    // Keyed by the wrong number of terms: an instance is a resource
    // and an id, and a record is a resource.
    assert!(misshapen(&creating(&|| own_point(RESOURCE, vec![]), None)));
    assert!(misshapen(&creating(
        &|| own_point(INSTANCE, vec![a_resource()]),
        None
    )));
}

/// A value cell is keyed by what it holds, so no leaf holds two
/// resources.
///
/// The property this buys is not the comparison itself but what
/// follows from it: the denomination is in the material, the
/// material is in the key, so two clauses reaching one leaf name one
/// resource however differently they spell it. A cell that could be
/// filled under one name and emptied under another would convert
/// value by holding it.
fn a_value_cell_is_reached_by_the_name_of_what_it_holds() {
    let other = || {
        Expr::Literal(Value::Address(Address::new(
            [8; 31],
            AddressClass::Resource,
        )))
    };
    let own = |material: Vec<Expr>| own_point(package_slot(0), material);

    // Keyed by what it holds, in the modes that move it.
    for mode in [delta, reserve, rewrite] {
        assert_eq!(
            check_declarations(&one_clause(
                own(vec![a_resource()]),
                mode(),
                Some(a_resource())
            )),
            Ok(()),
            "{:?}",
            mode()
        );
        // Named as something the key does not.
        assert_eq!(
            check_declarations(&one_clause(
                own(vec![a_resource()]),
                mode(),
                Some(other())
            )),
            Err(DeclarationError::DenominationNotKeyed { clause: 0 }),
            "{:?}",
            mode()
        );
        // Or keyed by nothing at all, which names no cell to hold it.
        assert_eq!(
            check_declarations(&one_clause(own(vec![]), mode(), Some(a_resource()))),
            Err(DeclarationError::DenominationNotKeyed { clause: 0 })
        );
    }

    // A collection is the same statement: the resource is the term
    // its entries hang under.
    let interval = |material| own_interval(package_slot(1), material);
    assert_eq!(
        check_declarations(&one_clause(
            interval(vec![a_resource()]),
            ModeExpr::Write { moves: Moves::Both },
            Some(a_resource())
        )),
        Ok(())
    );
    assert_eq!(
        check_declarations(&one_clause(
            interval(vec![other()]),
            ModeExpr::Write { moves: Moves::Both },
            Some(a_resource())
        )),
        Err(DeclarationError::DenominationNotKeyed { clause: 0 })
    );

    // A fresh key carries no material, so nothing could find it
    // again to take value out of it.
    assert_eq!(
        check_declarations(&one_clause(
            TargetExpr::Point(Expr::FreshKey { slot: 0 }),
            ModeExpr::Write { moves: Moves::Both },
            Some(a_resource())
        )),
        Err(DeclarationError::DenominationNotKeyed { clause: 0 })
    );
}

/// A commutative movement says what it moves.
///
/// `Delta` and `Reserve` move value and do nothing else, so the cell
/// is one that holds value whether or not the declaration says which.
/// Refused at materialization too, which has the evaluated key to
/// name; this is the same verdict where an author hears it.
fn a_movement_that_names_no_resource_does_not_publish() {
    let own = |material: Vec<Expr>| own_point(package_slot(0), material);
    for mode in [delta, reserve] {
        assert_eq!(
            check_declarations(&one_clause(own(vec![a_resource()]), mode(), None)),
            Err(DeclarationError::UndenominatedMovement { clause: 0 }),
            "{:?}",
            mode()
        );
    }
    // A write is the mode a byte cell takes too, so it says nothing
    // by saying nothing — which is what makes it a byte cell.
    assert_eq!(
        check_declarations(&one_clause(
            own(vec![]),
            ModeExpr::Write { moves: Moves::Both },
            None
        )),
        Ok(())
    );
    assert_eq!(
        check_declarations(&one_clause(own(vec![]), ModeExpr::Read, None)),
        Ok(())
    );
}

/// A denomination written down is a resource, judged at publish.
///
/// The class check runs wherever a denomination is evaluated; a
/// literal is the case an author can hear about their own package,
/// before any manifest names it.
fn a_literal_denomination_of_another_class_does_not_publish() {
    let component = || Expr::Literal(Value::Address(Address::new(
        [7; 31],
        AddressClass::Component,
    )));
    assert_eq!(
        check_declarations(&one_clause(
            own_point(package_slot(0), vec![component()]),
            ModeExpr::Delta { moves: Moves::Both },
            Some(component())
        )),
        Err(DeclarationError::NotAResource {
            clause: 0,
            found: AddressClass::Component
        })
    );
    // An expression over inputs is not decidable here; routing
    // evaluates it and applies the same refusal there.
    assert_eq!(
        check_declarations(&one_clause(
            own_point(package_slot(0), vec![Expr::Arg(0)]),
            ModeExpr::Delta { moves: Moves::Both },
            Some(Expr::Arg(0))
        )),
        Ok(())
    );
    // The instance's own address is decided without evaluating
    // anything: a component names no resource, so a self-addressed
    // denomination is a method every call would be refused at.
    assert_eq!(
        check_declarations(&one_clause(
            own_point(package_slot(0), vec![Expr::SelfAddr]),
            ModeExpr::Delta { moves: Moves::Both },
            Some(Expr::SelfAddr)
        )),
        Err(DeclarationError::NotAResource {
            clause: 0,
            found: AddressClass::Component
        })
    );
}

/// The same class verdict at the other two positions a signature
/// names resources: a parameter's denomination and an output
/// projection.
fn a_decided_non_resource_is_refused_at_every_denominating_position() {
    let component = || {
        Expr::Literal(Value::Address(Address::new(
            [7; 31],
            AddressClass::Component,
        )))
    };
    let resource = || {
        Expr::Literal(Value::Address(Address::new(
            [8; 31],
            AddressClass::Resource,
        )))
    };

    let denominated = |expr: Expr| MethodSignature {
        totality: Totality::Fallible,
        params: vec![ParamType::Bucket],
        denominations: vec![Some(expr)],
        ..MethodSignature::default()
    };
    assert_eq!(
        check_declarations(&denominated(component())),
        Err(DeclarationError::ParamNotAResource {
            param: 0,
            found: AddressClass::Component
        })
    );
    assert_eq!(check_declarations(&denominated(resource())), Ok(()));

    let projecting = |expr: Expr| MethodSignature {
        totality: Totality::Fallible,
        outputs: vec![expr],
        ..MethodSignature::default()
    };
    assert_eq!(
        check_declarations(&projecting(Expr::SelfAddr)),
        Err(DeclarationError::OutputNotAResource {
            output: 0,
            found: AddressClass::Component
        })
    );
    // A non-fungible projection is judged at the resource it names.
    assert_eq!(
        check_declarations(&projecting(Expr::NfBucket {
            resource: Box::new(component()),
            ids: Box::new(Expr::Arg(0)),
        })),
        Err(DeclarationError::OutputNotAResource {
            output: 0,
            found: AddressClass::Component
        })
    );
    assert_eq!(check_declarations(&projecting(resource())), Ok(()));
    // it.
    assert_eq!(check_declarations(&projecting(Expr::Arg(0))), Ok(()));
}

/// One cell holds one thing, and a signature says so once.
///
/// The denomination chooses which handle a clause materializes, so a
/// leaf denominated by one clause and not by another is a leaf a body
/// holds as a vault and as a byte cell at once — and a balance
/// written through the byte handle and debited through the value one
/// is value from nowhere. What makes this the whole of the property
/// is that the two clauses need not agree on anything else: a mode, a
/// presence and a guard are all free.
fn one_cell_is_not_a_vault_and_a_byte_cell_at_once() {
    let held = || Some(a_resource());
    let declared = |clauses: Vec<Clause>| {
        check_declarations(&MethodSignature {
            effects: clauses,
            ..MethodSignature::default()
        })
    };
    let write = || ModeExpr::Write { moves: Moves::Both };
    let effect = |target, mode, denomination: Option<Expr>| Clause::Effect {
        reach: None,
        guard: None,
        target,
        mode,
        denomination: denomination.map(Box::new),
    };

    // One leaf, two answers — the shape that would mint.
    let leaf = || own_point(package_slot(0), vec![a_resource()]);
    assert_eq!(
        declared(vec![
            effect(leaf(), write(), held()),
            effect(leaf(), write(), None),
        ]),
        Err(DeclarationError::MixedContents { clause: 1 })
    );
    // The reading modes are no exception: a read of a vault and a
    // byte read of the same leaf still disagree about what came out.
    assert_eq!(
        declared(vec![
            effect(leaf(), ModeExpr::Delta { moves: Moves::Both }, held()),
            effect(leaf(), ModeExpr::Read, None),
        ]),
        Err(DeclarationError::MixedContents { clause: 1 })
    );
    // Nor does a guard make them arms of one answer: what a cell
    // holds is not a question an execution answers.
    let guarded = |cond, denomination| Clause::Effect {
        reach: None,
        guard: Some(Box::new(cond)),
        target: leaf(),
        mode: write(),
        denomination,
    };
    let cond = || Expr::Eq(Box::new(Expr::Arg(0)), Box::new(Expr::Config(0)));
    assert_eq!(
        declared(vec![
            guarded(cond(), Some(Box::new(a_resource()))),
            guarded(Expr::Not(Box::new(cond())), None),
        ]),
        Err(DeclarationError::MixedContents { clause: 1 })
    );

    // Two intervals of one collection are two targets over one set of
    // entries, so the disagreement is about the entries and comparing
    // targets would let it through. Overlapping or not: what the
    // collection holds is the collection's.
    let interval = |hi| TargetExpr::Range {
        owner: Expr::SelfAddr,
        collection: SlotRef::Fixed(package_slot(1)),
        material: vec![a_resource()],
        lo: Expr::Literal(Value::U128(0)),
        hi: Expr::Literal(Value::U128(hi)),
        cap: Expr::Literal(Value::U64(4)),
    };
    assert_eq!(
        declared(vec![
            effect(interval(u128::MAX), write(), held()),
            effect(interval(10), write(), None),
        ]),
        Err(DeclarationError::MixedContents { clause: 1 })
    );
    // And an entry of it is the same statement at width one.
    assert_eq!(
        declared(vec![
            effect(interval(u128::MAX), write(), held()),
            effect(
                TargetExpr::Entry {
                    owner: Expr::SelfAddr,
                    collection: SlotRef::Fixed(package_slot(1)),
                    material: vec![a_resource()],
                    order: Expr::Literal(Value::U128(3)),
                },
                write(),
                None,
            ),
        ]),
        Err(DeclarationError::MixedContents { clause: 1 })
    );

    // Agreeing clauses are what a body that reads and writes one cell
    // declares, and they stand — in both directions.
    assert_eq!(
        declared(vec![
            effect(leaf(), write(), held()),
            effect(leaf(), ModeExpr::Read, held()),
        ]),
        Ok(())
    );
    let bytes = || own_point(package_slot(2), vec![]);
    assert_eq!(
        declared(vec![
            effect(bytes(), write(), None),
            effect(bytes(), ModeExpr::Read, None),
        ]),
        Ok(())
    );
    // Two different cells answer for themselves.
    assert_eq!(
        declared(vec![
            effect(leaf(), write(), held()),
            effect(bytes(), write(), None),
        ]),
        Ok(())
    );
}

/// A slot naming no cell has no shape to be held to, so it is not a
/// slot a signature may name at all: the unassigned part of the
/// vocabulary's band, and the kernel's own at the top.
#[test]
fn declaration_a_slot_the_protocol_assigns_no_cell_is_not_a_signature_to_name() {
    let declaring = |slot| MethodSignature {
        totality: Totality::Fallible,
        effects: vec![Clause::Effect {
            reach: None,
            guard: None,
            target: TargetExpr::Point(Expr::ChildKey {
                owner: Box::new(Expr::SelfAddr),
                slot: SlotRef::Fixed(slot),
                material: vec![],
            }),
            mode: ModeExpr::Read,
            denomination: None,
        }],
        ..MethodSignature::default()
    };
    // Everything below the base the vocabulary has not spoken for.
    let assigned = [VAULT, CONFIG, AUTH, RESOURCE, NF_VAULT, INSTANCE, HALT];
    for slot in (0..PACKAGE_SLOT_BASE).map(SlotId) {
        if assigned.contains(&slot) {
            continue;
        }
        assert_eq!(
            check_declarations(&declaring(slot)),
            Err(DeclarationError::ReservedSlot {
                clause: 0,
                slot: slot.0
            }),
            "{slot:?}"
        );
    }
    // The kernel's own band: the publish path's cell and the
    // envelope's, neither of which any signature declares.
    for slot in [PACKAGE_SLOT, NULLIFIER_SLOT] {
        assert_eq!(
            check_declarations(&declaring(slot)),
            Err(DeclarationError::ReservedSlot {
                clause: 0,
                slot: slot.0
            }),
            "{slot:?}"
        );
    }
    // And the band between them is a package's own, where the
    // vocabulary has nothing to say.
    assert_eq!(check_declarations(&declaring(package_slot(0))), Ok(()));
    assert_eq!(
        check_declarations(&declaring(SlotId(KERNEL_SLOT_BASE - 1))),
        Ok(())
    );
}

/// Every way a signature can write somebody else's prefix, refused
/// where its author can see it.
fn a_signature_reaching_another_prefix_is_refused() {
    // Each target in a mode it has a handle for: value moves through
    // a leaf, and an entry of a collection is rewritten.
    let declaring = |target: TargetExpr, mode: ModeExpr| MethodSignature {
        totality: Totality::Fallible,
        effects: vec![Clause::Effect {
            reach: None,
            guard: None,
            target,
            mode,
            denomination: Some(Box::new(a_resource())),
        }],
        ..MethodSignature::default()
    };
    let child_of = |owner: Expr| {
        TargetExpr::Point(Expr::ChildKey {
            owner: Box::new(owner),
            slot: SlotRef::Fixed(SlotId(PACKAGE_SLOT_BASE)),
            material: vec![a_resource()],
        })
    };
    let entry_of = |slot: u16, order: u128| TargetExpr::Entry {
        owner: Expr::SelfAddr,
        collection: SlotRef::Fixed(SlotId(slot)),
        material: vec![a_resource()],
        order: Expr::Literal(Value::U128(order)),
    };
    let write = || ModeExpr::Write { moves: Moves::Both };

    // Its own prefix, however the key under it is derived.
    assert_eq!(
        check_declarations(&declaring(child_of(Expr::SelfAddr), ModeExpr::Delta { moves: Moves::Both })),
        Ok(())
    );
    assert_eq!(
        check_declarations(&declaring(entry_of(PACKAGE_SLOT_BASE + 2, 1), write())),
        Ok(())
    );
    assert_eq!(
        check_declarations(&declaring(entry_of(PACKAGE_SLOT_BASE + 1, 0), write())),
        Ok(())
    );

    // An argument, a configuration slot, and a literal: three ways of
    // naming an object that never agreed to be named.
    for owner in [
        Expr::Arg(0),
        Expr::Config(0),
        Expr::Literal(Value::Address(Address::new(
            [9; 31],
            AddressClass::Component,
        ))),
    ] {
        assert_eq!(
            check_declarations(&declaring(child_of(owner), ModeExpr::Delta { moves: Moves::Both })),
            Err(DeclarationError::ForeignPrefix { clause: 0 })
        );
    }

    // And inside a `for-each` body, where the element is the owner.
    let looped = MethodSignature {
        totality: Totality::Fallible,
        effects: vec![Clause::ForEach {
            guard: None,
            list: Expr::Arg(0),
            body: vec![Clause::Effect {
                reach: None,
                guard: None,
                target: child_of(Expr::Binding(0)),
                mode: ModeExpr::Delta { moves: Moves::Both },
                denomination: Some(Box::new(a_resource())),
            }],
        }],
        ..MethodSignature::default()
    };
    assert_eq!(
        check_declarations(&looped),
        Err(DeclarationError::ForeignPrefix { clause: 1 })
    );
}

/// A signature declaring exactly one reaching clause.
fn one_reach(
    behaviour: GrantedBehaviour,
    target: TargetExpr,
    mode: ModeExpr,
    denomination: Option<Expr>,
) -> MethodSignature {
    MethodSignature {
        totality: Totality::Fallible,
        effects: vec![Clause::Effect {
            reach: Some(behaviour),
            guard: None,
            target,
            mode,
            denomination: denomination.map(Box::new),
        }],
        ..MethodSignature::default()
    }
}

/// A leaf under `owner`, at `slot` and keyed by `material`.
fn point_under(owner: Expr, slot: SlotRef, material: Vec<Expr>) -> TargetExpr {
    TargetExpr::Point(Expr::ChildKey {
        owner: Box::new(owner),
        slot,
        material,
    })
}

/// The slot an argument names, which only a reach may take.
fn told() -> SlotRef {
    SlotRef::Reached(Box::new(Expr::Arg(1)))
}

/// What a reach may say: the halt flag at the slot the vocabulary
/// keeps it at, and value wherever the holder keeps it.
///
/// An entry admits a reach for what that entry is about, so the cell
/// is named two different ways — a halt flag by its slot, a holding
/// by its denomination, which is the only thing that says a cell
/// holds value at all.
#[test]
fn a_reach_names_the_cell_its_authority_governs() {
    let holder = || Expr::Arg(0);
    let take = || ModeExpr::Reserve(Expr::Arg(2));

    assert_eq!(
        check_declarations(&one_reach(
            GrantedBehaviour::Freeze,
            point_under(holder(), SlotRef::Fixed(HALT), vec![a_resource()]),
            ModeExpr::Write { moves: Moves::Both },
            None,
        )),
        Ok(())
    );
    // Value at the vocabulary's vault, or at whatever slot the
    // caller says the holder keeps it in.
    for slot in [SlotRef::Fixed(VAULT), told()] {
        assert_eq!(
            check_declarations(&one_reach(
                GrantedBehaviour::Recall,
                point_under(holder(), slot, vec![a_resource()]),
                take(),
                Some(a_resource()),
            )),
            Ok(())
        );
    }
    // Instances the same way, over the interval holding them.
    assert_eq!(
        check_declarations(&one_reach(
            GrantedBehaviour::Recall,
            TargetExpr::Range {
                owner: holder(),
                collection: told(),
                material: vec![a_resource()],
                lo: Expr::Literal(Value::U128(0)),
                hi: Expr::Literal(Value::U128(u128::MAX)),
                cap: Expr::Literal(Value::U64(4)),
            },
            ModeExpr::Write { moves: Moves::Both },
            Some(a_resource()),
        )),
        Ok(())
    );

    // A freeze entry admits raising the holder's flag, not writing
    // whatever else sits under their prefix.
    assert_eq!(
        check_declarations(&one_reach(
            GrantedBehaviour::Freeze,
            point_under(holder(), told(), vec![a_resource()]),
            ModeExpr::Write { moves: Moves::Both },
            None,
        )),
        Err(DeclarationError::ReachesAnotherCell {
            clause: 0,
            behaviour: GrantedBehaviour::Freeze
        })
    );
    // And a recall entry admits taking value, so the cell it names
    // has to be one that holds some.
    assert_eq!(
        check_declarations(&one_reach(
            GrantedBehaviour::Recall,
            point_under(holder(), SlotRef::Fixed(HALT), vec![a_resource()]),
            ModeExpr::Write { moves: Moves::Both },
            None,
        )),
        Err(DeclarationError::ReachesAnotherCell {
            clause: 0,
            behaviour: GrantedBehaviour::Recall
        })
    );
}

/// The three things a reach has to be, refused one at a time.
///
/// An authority that governs reaching at all, a prefix that is not
/// the declarer's own, and a key derived from the resource whose
/// entry admits it — plus the slot an argument names, which is the
/// reach's alone.
#[test]
fn a_reach_that_is_not_one_is_refused() {
    let holder = || Expr::Arg(0);
    let take = || ModeExpr::Reserve(Expr::Arg(2));

    // A behaviour that is about the holder's own movement governs
    // nobody reaching them.
    for behaviour in [
        GrantedBehaviour::Mint,
        GrantedBehaviour::Burn,
        GrantedBehaviour::Withdraw,
        GrantedBehaviour::Deposit,
    ] {
        assert_eq!(
            check_declarations(&one_reach(
                behaviour,
                point_under(holder(), SlotRef::Fixed(VAULT), vec![a_resource()]),
                take(),
                Some(a_resource()),
            )),
            Err(DeclarationError::UnreachingBehaviour {
                clause: 0,
                behaviour
            })
        );
    }
    // Its own prefix is an ordinary access wearing an authority it
    // does not need.
    assert_eq!(
        check_declarations(&one_reach(
            GrantedBehaviour::Freeze,
            point_under(Expr::SelfAddr, SlotRef::Fixed(HALT), vec![a_resource()]),
            ModeExpr::Write { moves: Moves::Both },
            None,
        )),
        Err(DeclarationError::ReachesItself { clause: 0 })
    );
    // A key derived from nothing, and one derived from something
    // that is not a resource: neither names an entry that could
    // admit the reach.
    for material in [
        vec![],
        vec![Expr::Literal(Value::Address(Address::new(
            [9; 31],
            AddressClass::Component,
        )))],
    ] {
        assert_eq!(
            check_declarations(&one_reach(
                GrantedBehaviour::Freeze,
                point_under(holder(), SlotRef::Fixed(HALT), material),
                ModeExpr::Write { moves: Moves::Both },
                None,
            )),
            Err(DeclarationError::UnkeyedReach { clause: 0 })
        );
    }
    // And a slot an argument names, on a clause that reaches
    // nothing: everywhere but a reach the shape table has a constant
    // to dispatch on.
    let untold = MethodSignature {
        totality: Totality::Fallible,
        effects: vec![Clause::Effect {
            reach: None,
            guard: None,
            target: point_under(Expr::SelfAddr, told(), vec![a_resource()]),
            mode: take(),
            denomination: Some(Box::new(a_resource())),
        }],
        ..MethodSignature::default()
    };
    assert_eq!(
        check_declarations(&untold),
        Err(DeclarationError::SlotWithoutReach { clause: 0 })
    );
}

#[test]
fn declaration_a_condition_over_an_undeclared_or_incoherent_target_is_refused() {
    a_condition_over_an_undeclared_or_incoherent_target_is_refused();
}

#[test]
fn publish_a_condition_over_an_undeclared_or_incoherent_target_is_refused() {
    a_condition_over_an_undeclared_or_incoherent_target_is_refused();
}

#[test]
fn declaration_a_mint_no_condition_justifies_is_refused() {
    a_mint_no_condition_justifies_is_refused();
}

#[test]
fn publish_a_mint_no_condition_justifies_is_refused() {
    a_mint_no_condition_justifies_is_refused();
}

#[test]
fn declaration_complementary_guards_carry_opposite_presences_and_nothing_else_does() {
    complementary_guards_carry_opposite_presences_and_nothing_else_does();
}

#[test]
fn publish_complementary_guards_carry_opposite_presences_and_nothing_else_does() {
    complementary_guards_carry_opposite_presences_and_nothing_else_does();
}

#[test]
fn declaration_a_write_meets_every_other_write_it_can_fire_beside() {
    a_write_meets_every_other_write_it_can_fire_beside();
}

#[test]
fn publish_a_write_meets_every_other_write_it_can_fire_beside() {
    a_write_meets_every_other_write_it_can_fire_beside();
}

#[test]
fn declaration_a_pairing_no_handle_is_built_for_does_not_publish() {
    a_pairing_no_handle_is_built_for_does_not_publish();
}

#[test]
fn publish_a_pairing_no_handle_is_built_for_does_not_publish() {
    a_pairing_no_handle_is_built_for_does_not_publish();
}

#[test]
fn declaration_a_total_method_carries_no_guard() {
    a_total_method_carries_no_guard();
}

#[test]
fn publish_a_total_method_carries_no_guard() {
    a_total_method_carries_no_guard();
}

#[test]
fn declaration_opposite_presence_requirements_on_one_target_do_not_publish() {
    opposite_presence_requirements_on_one_target_do_not_publish();
}

#[test]
fn publish_opposite_presence_requirements_on_one_target_do_not_publish() {
    opposite_presence_requirements_on_one_target_do_not_publish();
}

#[test]
fn declaration_a_denomination_names_a_parameter_that_carries_value() {
    a_denomination_names_a_parameter_that_carries_value();
}

#[test]
fn publish_a_denomination_names_a_parameter_that_carries_value() {
    a_denomination_names_a_parameter_that_carries_value();
}

#[test]
fn declaration_a_protocol_cell_holding_no_value_is_declared_in_its_own_shape() {
    a_protocol_cell_holding_no_value_is_declared_in_its_own_shape();
}

#[test]
fn publish_a_protocol_cell_holding_no_value_is_declared_in_its_own_shape() {
    a_protocol_cell_holding_no_value_is_declared_in_its_own_shape();
}

#[test]
fn declaration_a_value_cell_is_reached_by_the_name_of_what_it_holds() {
    a_value_cell_is_reached_by_the_name_of_what_it_holds();
}

#[test]
fn publish_a_value_cell_is_reached_by_the_name_of_what_it_holds() {
    a_value_cell_is_reached_by_the_name_of_what_it_holds();
}

#[test]
fn declaration_a_movement_that_names_no_resource_does_not_publish() {
    a_movement_that_names_no_resource_does_not_publish();
}

#[test]
fn publish_a_movement_that_names_no_resource_does_not_publish() {
    a_movement_that_names_no_resource_does_not_publish();
}

#[test]
fn declaration_a_literal_denomination_of_another_class_does_not_publish() {
    a_literal_denomination_of_another_class_does_not_publish();
}

#[test]
fn publish_a_literal_denomination_of_another_class_does_not_publish() {
    a_literal_denomination_of_another_class_does_not_publish();
}

#[test]
fn declaration_a_decided_non_resource_is_refused_at_every_denominating_position() {
    a_decided_non_resource_is_refused_at_every_denominating_position();
}

#[test]
fn publish_a_decided_non_resource_is_refused_at_every_denominating_position() {
    a_decided_non_resource_is_refused_at_every_denominating_position();
}

#[test]
fn declaration_one_cell_is_not_a_vault_and_a_byte_cell_at_once() {
    one_cell_is_not_a_vault_and_a_byte_cell_at_once();
}

#[test]
fn publish_one_cell_is_not_a_vault_and_a_byte_cell_at_once() {
    one_cell_is_not_a_vault_and_a_byte_cell_at_once();
}

#[test]
fn declaration_a_signature_reaching_another_prefix_is_refused() {
    a_signature_reaching_another_prefix_is_refused();
}

#[test]
fn publish_a_signature_reaching_another_prefix_is_refused() {
    a_signature_reaching_another_prefix_is_refused();
}

/// What a signature says about supply is about an edge it carries, once,
/// and never beside the total mark.
#[test]
fn a_supply_statement_is_held_to_the_edges_it_is_about() {
    let destroying = |params, destroys| {
        check_declarations(&MethodSignature {
            params,
            destroys,
            ..MethodSignature::default()
        })
    };
    assert_eq!(
        destroying(vec![ParamType::Bucket, ParamType::NfBucket], vec![1, 0]),
        Ok(())
    );
    assert_eq!(
        destroying(vec![ParamType::U64], vec![0]),
        Err(DeclarationError::DestroysNoEdge { param: 0 })
    );
    assert_eq!(
        destroying(vec![ParamType::Bucket], vec![2]),
        Err(DeclarationError::DestroysNoEdge { param: 2 })
    );
    assert_eq!(
        destroying(vec![ParamType::Bucket], vec![0, 0]),
        Err(DeclarationError::DestroyedTwice { param: 0 })
    );
    let unit = |kind| Issuance {
        mark: b"unit".to_vec(),
        kind,
        direction: Issued::Minted,
        grants: minting(),
    };
    let issuing = |totality, issues| {
        check_declarations(&MethodSignature {
            totality,
            issues,
            ..MethodSignature::default()
        })
    };
    // One mark over two kinds is two resources; over one kind it is one.
    assert_eq!(
        issuing(
            Totality::Fallible,
            vec![
                unit(ResourceKind::Fungible),
                unit(ResourceKind::NonFungible)
            ]
        ),
        Ok(())
    );
    assert_eq!(
        issuing(
            Totality::Fallible,
            vec![unit(ResourceKind::Fungible), unit(ResourceKind::Fungible)]
        ),
        Err(DeclarationError::IssuanceNamedTwice)
    );
    assert_eq!(
        issuing(Totality::Total, vec![unit(ResourceKind::Fungible)]),
        Err(DeclarationError::SupplyTotality)
    );
}

/// A resource whose record this call writes comes up holding what the call
/// states, whatever its entries grant.
#[test]
fn a_founding_call_needs_no_mint_entry() {
    let issued = || Expr::SelfResource {
        kind: ResourceKind::Fungible,
        material: vec![Expr::Literal(Value::Bytes(b"unit".to_vec()))],
        grants: GrantsExpr::new(),
    };
    let record = || own_point(RESOURCE, vec![issued()]);
    let issuing = |effects| MethodSignature {
        issues: vec![Issuance {
            mark: b"unit".to_vec(),
            kind: ResourceKind::Fungible,
            direction: Issued::Minted,
            grants: GrantsExpr::new(),
        }],
        effects,
        ..MethodSignature::default()
    };
    let founding = issuing(vec![
        Clause::Effect {
            reach: None,
            guard: None,
            target: record(),
            mode: rewrite(),
            denomination: None,
        },
        Clause::Requires {
            guard: None,
            rule: RuleExpr::Require(RuleLeaf::Presence {
                target: Box::new(record()),
                expect: Presence::Absent,
            }),
        },
    ]);
    assert!(founds_its_resource(&founding.issues[0], &founding));
    assert_eq!(check_declarations(&founding), Ok(()));
    let later = issuing(vec![]);
    assert!(!founds_its_resource(&later.issues[0], &later));
    assert_eq!(
        check_declarations(&later),
        Err(DeclarationError::IssuanceUnadmitted(GrantedBehaviour::Mint))
    );
}
