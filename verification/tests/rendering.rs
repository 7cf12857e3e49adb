//! Records, requirements and refusals, as someone reads them.
use vm_effects::address::{
    Address, AddressClass, CallTarget, ComponentAddr, PrincipalAddr, ResourceAddr,
};
use vm_effects::admission::{Admitted, Asks, Injected, Placed, Refusal, UnmetCondition};
use vm_effects::cache::MetadataCache;
use vm_effects::dsl::{Clause, Expr, ModeExpr, SlotRef, TargetExpr};
use vm_effects::effect::{EffectTarget, Presence};
use vm_effects::explain::literal::{bytes, value_text};
use vm_effects::explain::{
    address_text, claim_text, explain_admission, explain_admission_tree, explain_refusal,
    explain_requirements, explain_resource, grants_read_config,
};
use vm_effects::graph::{EdgeRef, GraphArg, GraphNode, ManifestGraph};
use vm_effects::hash::Hash32;
use vm_effects::instance::{InstanceMeta, InstanceRegistry};
use vm_effects::intent::{Intent, IntentHeader, IntentTree, Member, NetworkId, SignedIntent};
use vm_effects::manifest::{JudgedLeaf, Manifest, Node};
use vm_effects::metadata::{PackageHash, PackageMetadata};
use vm_effects::presented::Claim;
use vm_effects::record::{Demand, Holding, ResourceMeta, SealedLeaf};
use vm_effects::resource::{
    GrantRuleExpr, GrantSubject, GrantedBehaviour, GrantsExpr, ResourceKind,
};
use vm_effects::rule::{always, never, Rule};
use vm_effects::signature::{AbiParam, MethodSignature};
use vm_effects::types::{package_slot, LocalKey, SubstateKey, Value};

fn spelled(class: &str, seed: u8, last: u8) -> String {
    format!("{class}:{}{last:02x}", format!("{seed:02x}").repeat(31))
}

fn resource() -> ResourceAddr {
    ResourceAddr::new([7; 31])
}

fn resource_spelled() -> String {
    spelled("resource", 7, 3)
}

fn component(seed: u8) -> Address {
    Address::new([seed; 31], AddressClass::Component)
}

#[test]
fn an_address_reads_as_its_class_and_its_bytes() {
    assert_eq!(address_text(component(0xAB)), spelled("component", 0xAB, 1));
    assert_eq!(
        claim_text(&Claim::of_subject(component(1))),
        spelled("component", 1, 1)
    );
    assert_eq!(
        claim_text(&Claim::of_instance(resource(), 42)),
        format!("{}, instance 42", resource_spelled())
    );
}

/// Printed text is quoted, quotes and all; anything else is hexadecimal.
#[test]
fn bytes_read_as_text_only_where_they_are_printed_text() {
    assert_eq!(bytes(b"ticket"), "\"ticket\"");
    assert_eq!(bytes(b"say \"hi\""), "\"say \\\"hi\\\"\"");
    assert_eq!(bytes(&[0xFF, 0x00, 0x1A]), "0xff001a");
    assert_eq!(bytes(&[b'a', 0x07]), "0x6107");
}

#[test]
fn a_literal_reads_in_the_form_its_kind_reads_best_in() {
    assert_eq!(value_text(&Value::U64(u64::MAX)), "u64::MAX");
    assert_eq!(value_text(&Value::U128(12)), "12");
    assert_eq!(value_text(&Value::Bool(true)), "true");
    assert_eq!(
        value_text(&Value::Tuple(vec![
            Value::U64(1),
            Value::List(vec![Value::U64(2), Value::Bytes(b"x".to_vec())])
        ])),
        "(1, [2, \"x\"])"
    );
}

#[test]
fn a_record_says_what_each_entry_asks_and_when_it_is_heard() {
    let issuer = component(9);
    let record = ResourceMeta {
        namespace: issuer,
        kind: ResourceKind::Fungible,
        demands: vec![
            (
                GrantedBehaviour::Withdraw,
                Demand::Asked(Rule::Require(SealedLeaf::Held {
                    badge: resource(),
                    holding: Holding::Instance(5),
                })),
            ),
            (GrantedBehaviour::Mint, Demand::Nothing),
            (GrantedBehaviour::Burn, Demand::Unreadable),
            (
                GrantedBehaviour::Deposit,
                Demand::Asked(Rule::Require(SealedLeaf::Claim(Claim::of_subject(issuer)))),
            ),
            (GrantedBehaviour::Freeze, Demand::Asked(never())),
            (GrantedBehaviour::Recall, Demand::Asked(always())),
        ],
    };
    let text = explain_resource(&record, resource());
    let expected = format!(
        "resource {r}  fungible\n  issued by  {i}\n  class      plain — nothing here can stop a \
         movement, so a transfer pays for none of it\n  mint       the issuer's own code, which \
         proves nothing to itself\n  burn       unreadable\n  withdraw   the moving party holds \
         instance 5 of {r} — heard before any body runs\n  deposit    approval on the issuer — \
         heard before it is a transaction\n  freeze     nobody, ever\n  recall     anyone\n",
        r = resource_spelled(),
        i = spelled("component", 9, 1),
    );
    assert_eq!(text, expected);
}

fn leaf_target() -> EffectTarget {
    EffectTarget::Point(SubstateKey {
        owner: component(1),
        local: LocalKey([2; 16]),
    })
}

fn node(method: &str, evidence: Vec<Claim>) -> Node {
    Node {
        target: component(1),
        method: method.to_string(),
        inputs: vec![],
        evidence,
    }
}

fn held(behaviour: GrantedBehaviour) -> Injected {
    Injected {
        rule: Rule::Require(JudgedLeaf::Presence {
            target: leaf_target(),
            expect: Presence::Present,
        }),
        asks: Asks::Entry(Rule::Require(SealedLeaf::Held {
            badge: resource(),
            holding: Holding::Balance,
        })),
        resource: resource(),
        behaviour,
    }
}

fn admitted() -> Admitted {
    Admitted {
        manifest: Manifest {
            nodes: vec![
                node("swap", vec![Claim::of_subject(component(3))]),
                node("look", vec![]),
            ],
        },
        injected: vec![
            vec![
                held(GrantedBehaviour::Withdraw),
                held(GrantedBehaviour::Deposit),
            ],
            vec![],
        ],
        effects: vec![],
        intents: vec![],
    }
}

#[test]
fn requirements_name_the_entry_they_came_from() {
    let badge = format!("the moving party holds a balance of {}", resource_spelled());
    let expected = format!(
        "required by the protocol, from the resources this transaction moves\n    0  {c} swap\n\
         {pad}withdraw of {r} — {badge}, heard before any body runs\n\
         {pad}deposit of {r} — {badge}, heard before any body runs\n    1  {c} look\n\
         {pad}nothing — no resource this node moves governs it\n",
        pad = "         ",
        c = spelled("component", 1, 1),
        r = resource_spelled(),
    );
    assert_eq!(explain_requirements(&admitted()), expected);
}

/// Two entries over one leaf read as alternatives, and what both ask as
/// one thing.
#[test]
fn a_refusal_reads_back_to_every_entry_it_could_have_come_from() {
    let text = explain_refusal(
        &admitted(),
        &UnmetCondition::Holds {
            target: leaf_target(),
            required: Presence::Present,
            node: Some(0),
        },
    );
    let expected = format!(
        "node 0, {c} swap: withdraw of {r} or deposit of {r} asks that the moving party holds a \
         balance of {r} — and it does not hold. Nothing declared this: it is the resource's own \
         entry, put on the call because the call moves it.",
        c = spelled("component", 1, 1),
        r = resource_spelled(),
    );
    assert_eq!(text, expected);
}

/// A leaf nothing the node was asked matches is the package's own.
#[test]
fn a_refusal_no_entry_explains_is_the_packages_own() {
    for (node, lead) in [(Some(1), "node 1: "), (None, "")] {
        let text = explain_refusal(
            &admitted(),
            &UnmetCondition::Holds {
                target: leaf_target(),
                required: Presence::Present,
                node,
            },
        );
        assert!(
            text.starts_with(&format!("{lead}the package's own condition on ")),
            "{text}"
        );
        assert!(text.contains(": it must be there, and it is not"), "{text}");
    }
    // Asked the other way, the two entries are no answer either.
    let text = explain_refusal(
        &admitted(),
        &UnmetCondition::Holds {
            target: leaf_target(),
            required: Presence::Absent,
            node: Some(0),
        },
    );
    assert!(text.contains("it must be not there"), "{text}");
}

#[test]
fn a_refused_presentation_says_what_was_presented() {
    assert_eq!(
        explain_refusal(&admitted(), &UnmetCondition::Satisfies { node: 0 }),
        format!(
            "node 0 presented {}, and the package's own gate is not satisfied by it",
            spelled("component", 3, 1)
        )
    );
    assert_eq!(
        explain_refusal(&admitted(), &UnmetCondition::Satisfies { node: 1 }),
        "node 1 presented nothing, and the package's own gate is not satisfied by it"
    );
    let mut approving = admitted();
    approving.injected[1].push(Injected {
        rule: Rule::Require(JudgedLeaf::Claim(Claim::of_subject(component(4)))),
        asks: Asks::Unhalted,
        resource: resource(),
        behaviour: GrantedBehaviour::Deposit,
    });
    assert_eq!(
        explain_refusal(&approving, &UnmetCondition::Satisfies { node: 1 }),
        format!(
            "node 1 presented nothing, and it does not satisfy what the protocol asked for: \
             deposit of {}",
            resource_spelled()
        )
    );
    assert_eq!(
        explain_refusal(&admitted(), &UnmetCondition::Satisfies { node: 9 }),
        "node 9 presented nothing this can see, and the package's own gate is not satisfied by it"
    );
}

#[test]
fn an_unanswerable_condition_says_so() {
    let text = explain_refusal(&admitted(), &UnmetCondition::Unanswerable { node: Some(2) });
    assert!(
        text.starts_with("node 2: a condition nothing about committed state could have satisfied."),
        "{text}"
    );
}

fn callee() -> ComponentAddr {
    ComponentAddr::new([1; 31])
}

fn resolving() -> (InstanceRegistry, MetadataCache) {
    let package = PackageHash(Hash32([5; 32]));
    let read = |index| Clause::Effect {
        reach: None,
        guard: None,
        target: TargetExpr::Point(Expr::ChildKey {
            owner: Box::new(Expr::SelfAddr),
            slot: SlotRef::Fixed(package_slot(index)),
            material: vec![],
        }),
        mode: ModeExpr::Read,
        denomination: None,
    };
    let mut metadata = PackageMetadata::default();
    metadata.methods.insert(
        "pay".to_string(),
        MethodSignature {
            effects: vec![read(0), read(1)],
            abi: vec![AbiParam::Handle { clause: 1, site: 0 }],
            ..MethodSignature::default()
        },
    );
    let mut packages = MetadataCache::new(vec![]);
    packages.publish(package, metadata).expect("publishes");
    let mut instances = InstanceRegistry::new();
    instances.create(
        InstanceMeta {
            package,
            config: vec![],
            salt: Hash32([0; 32]),
        },
        callee(),
    );
    (instances, packages)
}

fn paying(literal: u64) -> ManifestGraph {
    ManifestGraph {
        nodes: vec![GraphNode::new(
            CallTarget::Component(callee()),
            "pay",
            vec![
                GraphArg::Literal(Value::U64(literal)),
                GraphArg::edge(
                    EdgeRef {
                        producer: 3,
                        output: 1,
                    },
                    vec![],
                ),
            ],
        )],
    }
}

fn refused(at: Placed) -> Refusal {
    Refusal {
        sentence: "refused".to_string(),
        at,
        unsatisfied: None,
    }
}

fn nowhere() -> Placed {
    Placed {
        intent: None,
        node: None,
        param: None,
        abi: None,
        clause: None,
    }
}

#[test]
fn a_place_resolves_to_the_call_its_argument_its_binding_and_its_clause() {
    let (instances, packages) = resolving();
    let text = explain_admission(
        &paying(8),
        &instances,
        &packages,
        &refused(Placed {
            node: Some(0),
            param: Some(0),
            abi: Some(0),
            clause: Some(1),
            ..nowhere()
        }),
    );
    assert_eq!(
        text,
        format!(
            "refused\n  {} pay\n  argument 0: the literal 8\n  binding 0: handle for clause 1\n  \
             clause 1:   1  read self.slot 17",
            spelled("component", 1, 1)
        )
    );
    let text = explain_admission(
        &paying(8),
        &instances,
        &packages,
        &refused(Placed {
            node: Some(0),
            param: Some(1),
            ..nowhere()
        }),
    );
    assert!(
        text.ends_with("argument 1: output 1 of node 3 of its own intent"),
        "{text}"
    );
}

/// Whatever cannot be resolved is left out rather than guessed at.
#[test]
fn a_place_that_resolves_to_nothing_is_left_out() {
    let (instances, packages) = resolving();
    let told = |at| explain_admission(&paying(8), &instances, &packages, &refused(at));
    assert_eq!(told(nowhere()), "refused");
    assert_eq!(
        told(Placed {
            node: Some(1),
            ..nowhere()
        }),
        "refused"
    );
    assert_eq!(
        told(Placed {
            node: Some(0),
            param: Some(7),
            abi: Some(7),
            clause: Some(7),
            ..nowhere()
        }),
        format!("refused\n  {} pay", spelled("component", 1, 1))
    );
}

#[test]
fn an_unmet_rule_says_who_could_have_met_each_leaf() {
    let (instances, packages) = resolving();
    let account = PrincipalAddr::new([6; 31]).address();
    let met = Claim::of_subject(component(3));
    let refusal = Refusal {
        sentence: "refused".to_string(),
        at: Placed {
            node: Some(0),
            ..nowhere()
        },
        unsatisfied: Some((
            Rule::CountOf {
                count: 2,
                rules: vec![
                    Rule::Require(met),
                    Rule::Require(Claim::of_subject(account)),
                    Rule::Require(Claim::of_instance(resource(), 4)),
                ],
            },
            vec![met],
        )),
    };
    let text = explain_admission(&paying(8), &instances, &packages, &refusal);
    let expected = format!(
        "\n  its gate requires:\n    2 of:\n        met  claim {m}\n      unmet  claim {a} — proven by \
         signing in as {a}\n      unmet  claim {r}, instance 4 — proven by a holder presenting \
         instance 4",
        m = spelled("component", 3, 1),
        a = spelled("principal", 6, 0),
        r = resource_spelled(),
    );
    assert!(text.ends_with(&expected), "{text}");
}

fn header(discriminator: u64) -> IntentHeader {
    IntentHeader {
        network: NetworkId(1),
        validity_start_ms: 0,
        validity_end_ms: 1,
        discriminator,
    }
}

/// A flattened number resolves through the order; an intent's own does
/// not need one; and with neither there is nothing to resolve against.
#[test]
fn a_tree_resolves_a_node_through_its_order() {
    let (instances, packages) = resolving();
    let account = PrincipalAddr::new([6; 31]);
    let mut root = Intent::leaf(header(1), account, paying(10));
    root.members.push(Member {
        signed: SignedIntent::unsigned(Intent::leaf(header(2), account, paying(20))),
        wiring: vec![],
    });
    let tree = IntentTree::of_one(root);
    let order = vec![(1usize, 0usize), (0, 0)];
    let told = |order, at| {
        explain_admission_tree(&tree, order, &instances, &packages, &refused(at))
    };
    let flat = |node| Placed {
        node: Some(node),
        param: Some(0),
        ..nowhere()
    };
    assert!(told(Some(&order), flat(0)).ends_with("the literal 20"));
    assert!(told(Some(&order), flat(1)).ends_with("the literal 10"));
    assert_eq!(told(Some(&order), flat(2)), "refused");
    assert_eq!(told(None, flat(0)), "refused");
    let own = |intent| Placed {
        intent: Some(intent),
        ..flat(0)
    };
    assert!(told(None, own(1)).ends_with("the literal 20"));
    assert_eq!(told(None, own(2)), "refused");
}

/// Every field a grant reads, itself or through a badge, once and in
/// order.
#[test]
fn grants_list_the_configuration_they_read() {
    let config = |field| GrantRuleExpr::Require(GrantSubject::Config(field));
    let mut badge = GrantsExpr::new();
    badge.set(GrantedBehaviour::Mint, config(1));
    let mut grants = GrantsExpr::new();
    grants.set(
        GrantedBehaviour::Withdraw,
        GrantRuleExpr::CountOf {
            count: 1,
            rules: vec![
                config(7),
                config(3),
                config(7),
                GrantRuleExpr::Require(GrantSubject::SelfAddr),
            ],
        },
    );
    grants.set(
        GrantedBehaviour::Deposit,
        GrantRuleExpr::Require(GrantSubject::SelfBadge {
            mark: b"badge".to_vec(),
            kind: ResourceKind::Fungible,
            rules: badge,
        }),
    );
    assert_eq!(grants_read_config(&grants), vec![1, 3, 7]);
    assert_eq!(grants_read_config(&GrantsExpr::new()), Vec::<u32>::new());
}

/// Neither the subject nor the instance is dropped from a claim.
#[test]
fn claims_render_apart() {
    let claims = [
        Claim::of_subject(resource().address()),
        Claim::of_instance(resource(), 1),
        Claim::of_instance(resource(), 11),
        Claim::of_instance(ResourceAddr::new([8; 31]), 1),
        Claim::of_subject(Address::new([7; 31], AddressClass::Native)),
    ];
    for (i, left) in claims.iter().enumerate() {
        for (j, right) in claims.iter().enumerate() {
            assert_eq!(claim_text(left) == claim_text(right), i == j);
        }
    }
}

/// A tree of one intent reads as its graph does, whatever order it is read
/// with.
#[test]
fn a_lone_intent_reads_as_its_graph() {
    let (instances, packages) = resolving();
    let tree = IntentTree::of_one(Intent::leaf(
        header(1),
        PrincipalAddr::new([6; 31]),
        paying(10),
    ));
    let order = vec![(0usize, 0usize)];
    for at in [
        nowhere(),
        Placed {
            node: Some(0),
            param: Some(0),
            abi: Some(0),
            clause: Some(0),
            ..nowhere()
        },
        Placed {
            node: Some(1),
            ..nowhere()
        },
    ] {
        let bare = explain_admission(&paying(10), &instances, &packages, &refused(at));
        assert!(bare.starts_with("refused"));
        for order in [None, Some(&order), Some(&vec![]), Some(&vec![(4, 4)])] {
            assert_eq!(
                explain_admission_tree(&tree, order, &instances, &packages, &refused(at)),
                bare
            );
        }
    }
}
