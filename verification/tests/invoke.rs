//! Lowered calls, and the rules they are judged under.
use vm_effects::address::{Address, AddressClass, CallTarget, ResourceAddr};
use vm_effects::effect::{EffectTarget, Presence};
use vm_effects::invoke::{distinct_ids, EdgeKind};
use vm_effects::manifest::{Bounds, JudgedLeaf, Manifest};
use vm_effects::presented::{Claim, Presented};
use vm_effects::rule::{Judged, Rule};
use vm_effects::types::{EdgeContent, LocalKey, SubstateKey, Value, MAX_IDS_PER_EDGE};

/// What an id set is: distinct ids, no more than an edge carries.
#[test]
fn an_id_set_is_distinct_and_within_the_edge_cap() {
    assert_eq!(distinct_ids(&[]), Some(vec![]));
    assert_eq!(distinct_ids(&[3, 9]), Some(vec![3, 9]));

    assert_eq!(distinct_ids(&[7, 7]), None);
    assert_eq!(distinct_ids(&[1, 2, 1]), None);

    let full: Vec<u64> = (0..u64::try_from(MAX_IDS_PER_EDGE).unwrap()).collect();
    assert_eq!(distinct_ids(&full), Some(full.clone()));
    let over: Vec<u64> = (0..=u64::try_from(MAX_IDS_PER_EDGE).unwrap()).collect();
    assert_eq!(distinct_ids(&over), None);
}

#[test]
fn an_edge_kind_is_what_the_projection_declares() {
    assert_eq!(EdgeKind::of(&EdgeContent::Fungible), EdgeKind::Fungible);
    assert_eq!(
        EdgeKind::of(&EdgeContent::NonFungible { ids: vec![] }),
        EdgeKind::NonFungible
    );
}

#[test]
fn bounds_hold_from_the_least_to_the_greatest() {
    let both = Bounds {
        min: Some(3),
        max: Some(5),
    };
    for (amount, holds) in [(2, false), (3, true), (4, true), (5, true), (6, false)] {
        assert_eq!(both.admits(amount), holds, "{amount}");
    }
    assert!(Bounds::default().admits(0));
    assert!(Bounds::default().admits(u128::MAX));
    let least = Bounds {
        min: Some(3),
        max: None,
    };
    assert!(!least.admits(2) && least.admits(u128::MAX));
    let most = Bounds {
        min: None,
        max: Some(5),
    };
    assert!(most.admits(0) && !most.admits(6));
    assert!(Manifest::default().nodes.is_empty());
}

fn cell() -> SubstateKey {
    SubstateKey {
        owner: Address::new([3; 31], AddressClass::Component),
        local: LocalKey([7; 16]),
    }
}

fn claim() -> Rule<JudgedLeaf> {
    Rule::Require(JudgedLeaf::Claim(Claim::of_subject(Address::new(
        [9; 31],
        AddressClass::Principal,
    ))))
}

fn presence() -> Rule<JudgedLeaf> {
    Rule::Require(JudgedLeaf::Presence {
        target: EffectTarget::Point(cell()),
        expect: Presence::Present,
    })
}

fn stored() -> Rule<JudgedLeaf> {
    Rule::Require(JudgedLeaf::Stored { cell: cell() })
}

/// Where a rule is judged is the earliest stage that can answer every leaf
/// it holds, and nothing declares it.
#[test]
fn a_rule_is_judged_at_the_earliest_stage_that_can_answer_it() {
    let two = |left: Rule<JudgedLeaf>, right| Rule::CountOf {
        count: 1,
        rules: vec![left, right],
    };

    assert_eq!(claim().judged(), Judged::AtAdmission);
    assert_eq!(presence().judged(), Judged::AtMaterialization);
    assert_eq!(stored().judged(), Judged::InTheLeg);

    // Nesting changes nothing: the leaves decide, not the tree.
    assert_eq!(two(claim(), claim()).judged(), Judged::AtAdmission);
    assert_eq!(
        two(presence(), presence()).judged(),
        Judged::AtMaterialization
    );

    // A mixture asks about the call and about the state at once, and no
    // earlier stage holds both.
    assert_eq!(two(claim(), presence()).judged(), Judged::InTheLeg);
    assert_eq!(two(claim(), stored()).judged(), Judged::InTheLeg);
    assert_eq!(two(presence(), stored()).judged(), Judged::InTheLeg);

    // The algebra's constants hold no leaves at all, and admission decides
    // those as cheaply as anything else.
    for count in [0, 1] {
        let constant: Rule<JudgedLeaf> = Rule::CountOf {
            count,
            rules: Vec::new(),
        };
        assert_eq!(constant.judged(), Judged::AtAdmission);
    }

    // And only the first two land before any leg commits.
    assert!(Judged::AtAdmission.before_any_leg());
    assert!(Judged::AtMaterialization.before_any_leg());
    assert!(!Judged::InTheLeg.before_any_leg());
}

fn address(byte: u8, class: AddressClass) -> Address {
    Address::new([byte; 31], class)
}

/// A claim names a subject, and what that subject is is its class's answer
/// given where the question matters.
#[test]
fn the_claim_an_address_names_is_the_address_itself() {
    let badge = address(0xB0, AddressClass::Resource);
    let named = Presented::of(&Value::Address(badge)).expect("a resource names a badge");
    assert_eq!(named, Presented::of_subject(badge));
    assert_eq!(
        named.badge(),
        Some(ResourceAddr::try_from(badge).expect("a resource address"))
    );
    assert_eq!(named.callable(), None);

    for class in [AddressClass::Principal, AddressClass::Component] {
        let who = address(0x11, class);
        let named = Presented::of(&Value::Address(who)).expect("a callable names itself");
        assert_eq!(named, Presented::of_subject(who));
        assert_eq!(named.badge(), None);
        assert_eq!(
            named.callable(),
            Some(CallTarget::try_from(who).expect("a callable address"))
        );
        assert_eq!(named.address(), who);
    }

    // An address that is neither callable nor a resource names no claim.
    for class in [AddressClass::Package, AddressClass::Native] {
        let who = address(0x11, class);
        assert_eq!(Presented::of(&Value::Address(who)), None);
    }
}

/// A resource and an id name one instance of that resource. The pair is
/// the only shape that does.
#[test]
fn a_resource_and_an_id_name_one_instance() {
    let badge = address(0xB0, AddressClass::Resource);
    assert_eq!(
        Presented::of(&Value::Tuple(vec![Value::Address(badge), Value::U64(7)])),
        Some(Presented::of_instance(
            ResourceAddr::try_from(badge).expect("a resource address"),
            7,
        ))
    );

    // A non-resource with an id names nothing: only a resource has
    // instances.
    assert_eq!(
        Presented::of(&Value::Tuple(vec![
            Value::Address(address(0x11, AddressClass::Component)),
            Value::U64(7),
        ])),
        None
    );

    // Neither does a value that is not an address at all.
    for value in [
        Value::U64(7),
        Value::Bytes(vec![1]),
        Value::Tuple(vec![Value::Address(badge)]),
        Value::List(vec![Value::Address(badge)]),
        Value::Bucket {
            resource: ResourceAddr::try_from(badge).expect("resource class"),
            content: EdgeContent::Fungible,
        },
    ] {
        assert_eq!(Presented::of(&value), None, "{value:?}");
    }
}

#[test]
fn two_claims_are_one_where_subject_and_instance_are() {
    let badge = ResourceAddr::new([0xB0; 31]);
    assert_eq!(
        Presented::of_instance(badge, 7),
        Presented::of_instance(badge, 7)
    );
    assert_ne!(
        Presented::of_instance(badge, 7),
        Presented::of_instance(badge, 8)
    );
    assert_ne!(
        Presented::of_instance(badge, 7),
        Presented::of_subject(badge.address())
    );
    // A restricted resource is a badge too, and another one.
    let restricted = address(0xB0, AddressClass::Restricted);
    let named = Presented::of_address(restricted).expect("a restricted resource is a resource");
    assert!(named.badge().is_some());
    assert_ne!(named, Presented::of_subject(badge.address()));
}
