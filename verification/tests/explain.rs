//! A package's declaration, as someone reads it.
use vm_effects::address::{Address, AddressClass};
use vm_effects::dsl::{Clause, Expr, ModeExpr, RuleLeaf, SlotRef, TargetExpr};
use vm_effects::effect::{Moves, Presence};
use vm_effects::explain::refusal::joined;
use vm_effects::explain::{explain, explain_method};
use vm_effects::metadata::{LeafForm, PackageMetadata, SlotKind, SlotShape};
use vm_effects::resource::{
    GrantRuleExpr, GrantSubject, GrantedBehaviour, GrantsExpr, ResourceKind,
};
use vm_effects::rule::Rule;
use vm_effects::shape::{ShapeNode, TypeShape};
use vm_effects::signature::{AbiParam, MethodSignature, ParamType, Totality};
use vm_effects::types::{package_slot, SlotId, Value};
use vm_effects::vocabulary;

const VAULT: SlotId = SlotId(vocabulary::VAULT);

/// The key of a leaf under the declaring instance.
fn self_child(slot: SlotId, material: Vec<Expr>) -> Expr {
    Expr::ChildKey {
        owner: Box::new(Expr::SelfAddr),
        slot: SlotRef::Fixed(slot),
        material,
    }
}

/// A refusal the verdict cannot attribute reads as every entry it could
/// have come from: reporting whichever came first would be picking by
/// declaration order.
#[test]
fn requirements_one_leaf_cannot_separate_read_as_alternatives() {
    assert_eq!(
        joined(&vec!["withdraw of R".to_owned(), "deposit of R".to_owned()]),
        "withdraw of R or deposit of R"
    );
    // Two entries asking the same thing are one thing asked.
    assert_eq!(
        joined(&vec!["not halted".to_owned(), "not halted".to_owned()]),
        "not halted"
    );
    // And one is itself, so the common case reads as it always did.
    assert_eq!(
        joined(&vec!["withdraw of R".to_owned()]),
        "withdraw of R"
    );
}

/// The verb a directional write reads as is the cell's own, and a
/// cell that holds no value has no direction to read.
///
/// A balance is credited and debited; a collection is filed into
/// and taken from. The one thing both give up is the other
/// direction, and the rendering has to say which — a declaration
/// that gave up the debit is asked for the receiving credential
/// alone, and a reader deciding whether to call it needs to see
/// that before the entry does.
#[test]
fn a_directional_write_reads_as_the_verb_its_cell_takes() {
    let resource = || {
        Expr::Literal(Value::Address(Address::new(
            [0xE1; 31],
            AddressClass::Resource,
        )))
    };
    let clause = |target, moves, held: bool| Clause::Effect {
        reach: None,
        guard: None,
        target,
        mode: ModeExpr::Write { moves },
        denomination: held.then(|| Box::new(resource())),
    };
    let balance = || TargetExpr::Point(self_child(VAULT, vec![resource()]));
    let entries = || TargetExpr::Range {
        owner: Expr::SelfAddr,
        collection: SlotRef::Fixed(package_slot(0)),
        material: vec![resource()],
        lo: Expr::Literal(Value::U128(0)),
        hi: Expr::Literal(Value::U128(1)),
        cap: Expr::Literal(Value::U64(1)),
    };
    let rendered = |target: TargetExpr, moves, held| {
        explain_method(
            &package("m", declaring(vec![clause(target, moves, held)])),
            "m",
        )
        .expect("the method renders")
    };

    assert!(rendered(balance(), Moves::In, true).contains("credit-only"));
    assert!(rendered(balance(), Moves::Out, true).contains("debit-only"));
    assert!(rendered(entries(), Moves::In, true).contains("file"));
    assert!(rendered(entries(), Moves::Out, true).contains("take"));

    // Both directions is what a write saying nothing means, and so
    // is a cell holding no value: the kernel drops the direction
    // there, so the rendering says no more than the declaration.
    let targets: [&dyn Fn() -> TargetExpr; 2] = [&balance, &entries];
    for target in targets {
        assert!(rendered(target(), Moves::Both, true).contains("write"));
        for moves in [Moves::In, Moves::Out, Moves::Both] {
            assert!(
                rendered(target(), moves, false).contains("write"),
                "a byte cell has no direction to read"
            );
        }
    }
}

/// An unbroken run of clause handles is counted once; a pair is
/// spelled out.
#[test]
fn a_run_of_clause_handles_is_counted_once() {
    let handle = |clause| AbiParam::Handle { clause, site: 0 };
    let mut signature = declaring(vec![
        read(Expr::SelfAddr),
        read(Expr::SelfAddr),
        read(Expr::SelfAddr),
        read(Expr::SelfAddr),
    ]);
    signature.abi = vec![
        handle(0),
        handle(1),
        handle(2),
        handle(3),
        AbiParam::Derived(Expr::Arg(0)),
    ];
    let text = rendered("runs", signature);
    assert!(
        text.contains("exports  handles for clauses 0–3, arg0"),
        "{text}"
    );

    let mut signature = declaring(vec![read(Expr::SelfAddr), read(Expr::SelfAddr)]);
    signature.abi = vec![handle(0), handle(1)];
    let text = rendered("pair", signature);
    assert!(
        text.contains("exports  handle for clause 0, handle for clause 1"),
        "{text}"
    );
}

/// A denomination the key already shows is the key restated, and
/// only one the key does not show earns a trailer.
#[test]
fn a_denomination_the_key_shows_is_not_written_twice() {
    let keyed = |denomination: Expr| Clause::Effect {
        reach: None,
        guard: None,
        target: TargetExpr::Point(self_child(VAULT, vec![Expr::Config(0)])),
        mode: ModeExpr::Delta { moves: Moves::In },
        denomination: Some(Box::new(denomination)),
    };
    let text = rendered("keeps", declaring(vec![keyed(Expr::Config(0))]));
    assert!(text.contains("credit self.vault[config.x]\n"), "{text}");
    let text = rendered("keeps", declaring(vec![keyed(Expr::Config(1))]));
    assert!(
        text.contains("credit self.vault[config.x] holding config.y"),
        "{text}"
    );
}

/// A package declaring one method, so a rendering has a name table
/// to resolve through.
fn package(method: &str, signature: MethodSignature) -> PackageMetadata {
    let mut metadata = PackageMetadata {
        config: vec!["x".to_owned(), "y".to_owned()],
        events: vec!["traded".to_owned()],
        errors: vec!["underfunded".to_owned()],
        ..PackageMetadata::default()
    };
    let word = metadata
        .types
        .push(ShapeNode {
            name: None,
            shape: TypeShape::U128,
            most: 16,
        })
        .expect("a place the table holds");
    metadata.state.insert(
        package_slot(0),
        SlotShape {
            name: "entries".to_owned(),
            kind: SlotKind::Ordered,
            element: LeafForm::Value(word),
            width: 16,
            denomination: None,
        },
    );
    metadata.methods.insert(method.to_owned(), signature);
    metadata
}

/// A method declaring `effects` and nothing else.
fn declaring(effects: Vec<Clause>) -> MethodSignature {
    MethodSignature {
        effects,
        ..MethodSignature::default()
    }
}

/// One read declared under `condition`, so a rendering has a
/// position that takes an expression of any binding strength.
fn guarded(condition: Expr) -> Clause {
    Clause::Effect {
        reach: None,
        guard: Some(Box::new(condition)),
        target: TargetExpr::Point(Expr::SelfAddr),
        mode: ModeExpr::Read,
        denomination: None,
    }
}

/// One read of a point target.
fn read(target: Expr) -> Clause {
    Clause::Effect {
        reach: None,
        guard: None,
        target: TargetExpr::Point(target),
        mode: ModeExpr::Read,
        denomination: None,
    }
}

fn rendered(method: &str, signature: MethodSignature) -> String {
    let metadata = package(method, signature);
    explain_method(&metadata, method).expect("the method it was built around")
}

#[test]
fn a_slot_is_named_by_the_protocol_or_by_the_package_that_declared_it() {
    let text = rendered(
        "reads",
        declaring(vec![
            read(self_child(VAULT, vec![Expr::Config(0)])),
            read(self_child(package_slot(0), vec![])),
            read(self_child(SlotId(999), vec![])),
        ]),
    );
    assert!(text.contains("read self.vault[config.x]"), "{text}");
    assert!(text.contains("read self.entries"), "{text}");
    assert!(text.contains("read self.slot 999"), "{text}");
}

#[test]
fn an_index_past_its_table_renders_as_the_index() {
    let text = rendered("reads", declaring(vec![read(Expr::Config(7))]));
    assert!(text.contains("read config[7]"), "{text}");
}

#[test]
fn an_operand_is_parenthesized_exactly_where_it_binds_looser() {
    let sum = |left, right| Expr::Add(Box::new(left), Box::new(right));
    let arg = Expr::Arg;
    // `(arg0 + arg1) + arg2` needs no parentheses to reparse as
    // itself, and `arg0 + (arg1 + arg2)` is a different tree that does.
    let left_nested = rendered(
        "l",
        declaring(vec![guarded(sum(sum(arg(0), arg(1)), arg(2)))]),
    );
    let right_nested = rendered(
        "r",
        declaring(vec![guarded(sum(arg(0), sum(arg(1), arg(2))))]),
    );
    assert!(
        left_nested.contains("when arg0 + arg1 + arg2 →"),
        "{left_nested}"
    );
    assert!(
        right_nested.contains("when arg0 + (arg1 + arg2) →"),
        "{right_nested}"
    );
}

#[test]
fn a_selection_is_parenthesized_wherever_it_is_an_operand() {
    let selection = Expr::If {
        cond: Box::new(Expr::Eq(
            Box::new(Expr::Arg(0)),
            Box::new(Expr::Literal(Value::U64(1))),
        )),
        chosen: Box::new(Expr::Config(0)),
        otherwise: Box::new(Expr::Config(1)),
    };
    let text = rendered(
        "chooses",
        declaring(vec![guarded(Expr::Add(
            Box::new(selection),
            Box::new(Expr::Arg(1)),
        ))]),
    );
    assert!(
        text.contains("when (if arg0 == 1 then config.x else config.y) + arg1 →"),
        "{text}"
    );
}

#[test]
fn clauses_are_numbered_in_the_preorder_a_clause_index_names() {
    let signature = declaring(vec![
        read(Expr::SelfAddr),
        Clause::ForEach {
            guard: None,
            list: Expr::IdsOf(Box::new(Expr::Arg(0))),
            body: vec![read(Expr::Binding(0)), read(Expr::Binding(1))],
        },
        Clause::Mints {
            guard: None,
            claim: Expr::SelfAddr,
        },
    ]);
    let flat = Clause::flatten(&signature.effects).len();
    let text = rendered("loops", signature);
    let numbers: Vec<&str> = text
        .lines()
        .filter_map(|line| line.split_whitespace().next())
        .filter(|word| word.parse::<u32>().is_ok())
        .collect();
    assert_eq!(numbers, ["0", "1", "2", "3", "4"]);
    assert_eq!(numbers.len(), flat, "the walk the index names");
    assert!(text.contains("2  read element"), "{text}");
    assert!(text.contains("3  read element^1"), "{text}");
}

#[test]
fn a_guard_reads_as_the_condition_the_clause_is_declared_under() {
    let text = rendered(
        "guarded",
        declaring(vec![Clause::Effect {
            reach: None,
            guard: Some(Box::new(Expr::Lt(
                Box::new(Expr::Arg(0)),
                Box::new(Expr::Config(0)),
            ))),
            target: TargetExpr::Point(Expr::SelfAddr),
            mode: ModeExpr::Reserve(Expr::Arg(1)),
            denomination: Some(Box::new(Expr::Config(1))),
        }]),
    );
    assert!(
        text.contains("when arg0 < config.x → reserve arg1 self holding config.y"),
        "{text}"
    );
}

#[test]
fn a_presence_condition_says_which_way_it_is_feasible() {
    let holds = |presence| Clause::Requires {
        guard: None,
        rule: Rule::Require(RuleLeaf::Presence {
            target: Box::new(TargetExpr::Point(Expr::SelfAddr)),
            expect: presence,
        }),
    };
    let text = rendered(
        "held",
        declaring(vec![holds(Presence::Present), holds(Presence::Absent)]),
    );
    assert!(text.contains("requires self is present"), "{text}");
    assert!(text.contains("requires self is absent"), "{text}");
}

#[test]
fn a_threshold_names_its_count_and_every_branch() {
    let text = rendered(
        "threshold",
        declaring(vec![Clause::Requires {
            guard: None,
            rule: Rule::CountOf {
                count: 2,
                rules: vec![
                    Rule::Require(RuleLeaf::Claim(Expr::Config(0))),
                    Rule::Require(RuleLeaf::Claim(Expr::Arg(0))),
                    Rule::Require(RuleLeaf::Stored {
                        cell: Expr::SelfAddr,
                    }),
                ],
            },
        }]),
    );
    assert!(
        text.contains("requires 2 of (claim config.x, claim arg0, the rule stored at self)"),
        "{text}"
    );
}

/// A mention of a self-issued resource leaves its grants to the
/// resources table, which spells them once — unless two derivations
/// share a mark, in which case no mention leaves anything implicit.
#[test]
fn an_issued_resource_spells_its_grants_in_the_resources_table() {
    let granting = |badge: &[u8]| {
        let mut grants = GrantsExpr::new();
        grants.set(
            GrantedBehaviour::Deposit,
            GrantRuleExpr::Require(GrantSubject::SelfBadge {
                mark: badge.to_vec(),
                kind: ResourceKind::Fungible,
                rules: GrantsExpr::new(),
            }),
        );
        grants
    };
    let ticket = |grants| Expr::SelfResource {
        kind: ResourceKind::NonFungible,
        material: vec![Expr::Literal(Value::Bytes(b"ticket".to_vec()))],
        grants,
    };
    let text = explain(&package(
        "issues",
        declaring(vec![read(ticket(granting(b"owner-badge")))]),
    ));
    assert!(
        text.contains(
            "resources\n  non-fungible[\"ticket\"] — granting deposit to whoever \
             holds the issuer's \"owner-badge\" badge"
        ),
        "{text}"
    );
    assert!(
        text.contains("read self-issued(non-fungible[\"ticket\"])\n"),
        "{text}"
    );

    // Two grant sets under one mark are two resources a reader
    // cannot tell apart by name, so every mention stays whole.
    let text = explain(&package(
        "issues",
        declaring(vec![
            read(ticket(granting(b"owner-badge"))),
            read(ticket(granting(b"court-badge"))),
        ]),
    ));
    assert!(
        text.contains(
            "read self-issued(non-fungible[\"ticket\"]), granting deposit to \
             whoever holds the issuer's \"owner-badge\" badge"
        ),
        "{text}"
    );
}

#[test]
fn a_range_names_its_bounds_and_what_it_may_touch() {
    let text = rendered(
        "sweeps",
        declaring(vec![Clause::Effect {
            reach: None,
            guard: None,
            target: TargetExpr::Range {
                owner: Expr::SelfAddr,
                collection: SlotRef::Fixed(package_slot(0)),
                material: vec![Expr::Arg(0)],
                lo: Expr::Literal(Value::U128(3)),
                hi: Expr::Literal(Value::U128(u128::MAX)),
                cap: Expr::Len(Box::new(Expr::Arg(1))),
            },
            mode: ModeExpr::Read,
            denomination: None,
        }]),
    );
    assert!(
        text.contains("read self.entries[arg0] over 3..=u128::MAX, at most len(arg1) entries"),
        "{text}"
    );
}

/// A range over the whole order space is named rather than spelled,
/// whichever way its bounds are written.
#[test]
fn a_range_over_the_whole_space_is_named_rather_than_spelled() {
    let range = |lo, hi| Clause::Effect {
        reach: None,
        guard: None,
        target: TargetExpr::Range {
            owner: Expr::SelfAddr,
            collection: SlotRef::Fixed(package_slot(0)),
            material: vec![],
            lo,
            hi,
            cap: Expr::Literal(Value::U64(8)),
        },
        mode: ModeExpr::Read,
        denomination: None,
    };
    let text = rendered(
        "whole",
        declaring(vec![range(
            Expr::Literal(Value::U128(0)),
            Expr::Literal(Value::U128(u128::MAX)),
        )]),
    );
    assert!(
        text.contains("read self.entries over the whole order space, at most 8 entries"),
        "{text}"
    );

    let half = |part: u64| Box::new(Expr::Literal(Value::U64(part)));
    let text = rendered(
        "whole",
        declaring(vec![range(
            Expr::Pack {
                hi: half(0),
                lo: half(0),
            },
            Expr::Pack {
                hi: half(u64::MAX),
                lo: half(u64::MAX),
            },
        )]),
    );
    assert!(text.contains("over the whole order space"), "{text}");
}

#[test]
fn the_package_rendering_carries_every_table_it_declares() {
    let mut signature = declaring(vec![]);
    signature.params = vec![ParamType::Bucket];
    signature.totality = Totality::Total;
    let text = explain(&package("deposit", signature));
    assert!(text.contains("     16  entries — an ordered collection, holding u128"));
    assert!(text.contains("      0  x"));
    assert!(text.contains("      0  traded"));
    assert!(text.contains("      0  underfunded"));
    assert!(text.contains("deposit(bucket) — total"), "{text}");
}

#[test]
fn a_method_the_package_does_not_declare_renders_as_nothing() {
    let metadata = package("deposit", declaring(vec![]));
    assert!(explain_method(&metadata, "withdraw").is_none());
}
