//! Packages behind the door they are judged at.
use vm_effects::cache::{MetadataCache, PublishRefusal};
use vm_effects::dsl::{Clause, Expr, ModeExpr, TargetExpr};
use vm_effects::effect::Moves;
use vm_effects::hash::Hash32;
use vm_effects::metadata::{PackageHash, PackageMetadata};
use vm_effects::publish::{MetadataError, SignatureError};
use vm_effects::signature::{AbiParam, MethodSignature};

fn one_method() -> PackageMetadata {
    let mut record = PackageMetadata::default();
    record
        .methods
        .insert("m".to_string(), MethodSignature::default());
    record
}

#[test]
fn publish_is_idempotent() {
    let hash = PackageHash(Hash32([1; 32]));
    let mut cache = MetadataCache::new(vec![]);
    cache.publish(hash, one_method()).expect("publishes");
    cache.publish(hash, one_method()).expect("republishes");
    assert_eq!(cache.get(hash), Some(&one_method()));
}

/// The door asks what only the whole metadata answers: every signature
/// here passes on its own, and the event named has no shape.
#[test]
fn a_record_whose_tables_disagree_is_refused_at_the_door() {
    let hash = PackageHash(Hash32([2; 32]));
    let mut record = PackageMetadata::default();
    record.events.push("paid".to_string());
    record.methods.insert(
        "pay".to_string(),
        MethodSignature {
            event_bytes: 64,
            ..MethodSignature::default()
        },
    );
    let refusal = MetadataCache::new(vec![])
        .publish(hash, record)
        .expect_err("an event with no shape opens to nothing");
    assert!(
        matches!(
            refusal,
            PublishRefusal::Package(MetadataError::EventWithoutShape { .. })
        ),
        "unexpected refusal: {refusal:?}"
    );
}

/// A refused signature is told by the method it is under.
#[test]
fn a_refused_method_is_named_at_the_door() {
    let hash = PackageHash(Hash32([3; 32]));
    let mut record = one_method();
    record.methods.insert(
        "z".to_string(),
        MethodSignature {
            abi: vec![AbiParam::Handle { clause: 4, site: 0 }],
            ..MethodSignature::default()
        },
    );
    let mut cache = MetadataCache::new(vec![]);
    let refusal = cache.publish(hash, record).expect_err("no clause 4");
    assert!(matches!(
        refusal,
        PublishRefusal::Method { ref method, source: SignatureError::Abi(_) } if method == "z"
    ));
    assert_eq!(cache.get(hash), None);
    assert!(cache.record(hash).is_none());
}

/// The first record under an address is the one it keeps.
#[test]
fn an_address_keeps_the_record_it_was_given_first() {
    let hash = PackageHash(Hash32([4; 32]));
    let mut cache = MetadataCache::new(vec![]);
    cache.publish(hash, one_method()).expect("publishes");
    cache
        .publish(hash, PackageMetadata::default())
        .expect("passes the door");
    assert_eq!(cache.get(hash), Some(&one_method()));
    assert_eq!(cache.get(PackageHash(Hash32([5; 32]))), None);
}

#[test]
fn a_method_is_found_by_its_name() {
    let hash = PackageHash(Hash32([6; 32]));
    let mut record = one_method();
    let declared = || MethodSignature {
        effects: vec![Clause::Effect {
            reach: None,
            guard: None,
            target: TargetExpr::Point(Expr::ChildKey {
                owner: Box::new(Expr::SelfAddr),
                slot: vm_effects::dsl::SlotRef::Fixed(vm_effects::types::SlotId(17)),
                material: vec![],
            }),
            mode: ModeExpr::Write { moves: Moves::Both },
            denomination: None,
        }],
        ..MethodSignature::default()
    };
    record.methods.insert("writes".to_string(), declared());
    let mut cache = MetadataCache::new(vec![]);
    cache.publish_unchecked(hash, record);
    assert_eq!(
        cache.method(hash, "writes").expect("declared").signature(),
        &declared()
    );
    assert_eq!(
        cache.method(hash, "m").expect("declared").signature(),
        &MethodSignature::default()
    );
    assert!(cache.method(hash, "reads").is_none());
    assert!(cache
        .method(PackageHash(Hash32([7; 32])), "writes")
        .is_none());
}

/// The handle outlives the borrow and reads the record the cache holds.
#[test]
fn a_record_is_shared_rather_than_copied() {
    let hash = PackageHash(Hash32([8; 32]));
    let mut cache = MetadataCache::new(vec![]);
    cache.publish(hash, one_method()).expect("publishes");
    let first = cache.record(hash).expect("held");
    let second = cache.record(hash).expect("held");
    assert_eq!(*first, one_method());
    assert!(std::sync::Arc::ptr_eq(&first, &second));
}
