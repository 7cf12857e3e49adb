//! Instances, at the addresses their records derive.
use vm_effects::address::{Address, AddressClass, CallTarget, ComponentAddr, PrincipalAddr};
use vm_effects::hash::Hash32;
use vm_effects::instance::{CertificateMismatch, InstanceMeta, InstanceRegistry};
use vm_effects::metadata::PackageHash;
use vm_effects::types::Value;

/// A derivation over everything an address commits.
fn derived(meta: &InstanceMeta) -> ComponentAddr {
    let mut body = [0u8; 31];
    let config = format!("{:?}", meta.config);
    let committed = meta
        .package
        .0
         .0
        .iter()
        .chain(meta.salt.0.iter())
        .copied()
        .chain(config.bytes());
    for (index, byte) in committed.enumerate() {
        let at = index % 31;
        body[at] = body[at].wrapping_mul(33).wrapping_add(byte).wrapping_add(1);
    }
    ComponentAddr::new(body)
}

fn meta(package: u8, config: Vec<Value>) -> InstanceMeta {
    InstanceMeta {
        package: PackageHash(Hash32([package; 32])),
        config,
        salt: Hash32([2; 32]),
    }
}

#[test]
fn a_record_is_admitted_only_at_the_address_it_derives() {
    let record = || meta(1, vec![Value::U64(7)]);
    let address = derived(&record());
    assert!(InstanceMeta::derives(
        Some(derived(&record())),
        address.address()
    ));

    let mut registry = InstanceRegistry::new();
    assert_eq!(
        registry.admit_record(address.address(), record(), Some(derived(&record()))),
        Ok(())
    );
    assert_eq!(
        registry.get(CallTarget::Component(address)),
        Some(&record())
    );

    // Any other address is a claim the derivation refuses.
    let elsewhere = ComponentAddr::new([9; 31]);
    assert_eq!(
        registry.admit_record(elsewhere.address(), record(), Some(derived(&record()))),
        Err(CertificateMismatch)
    );
    assert_eq!(registry.get(CallTarget::Component(elsewhere)), None);
}

#[test]
fn a_false_package_claim_is_refused_by_verification() {
    let honest = meta(1, vec![]);
    let address = derived(&honest);
    // The same instance, claimed to run somebody else's code.
    let forged = || meta(0xFF, vec![]);
    assert!(!InstanceMeta::derives(
        Some(derived(&forged())),
        address.address()
    ));
    let mut registry = InstanceRegistry::new();
    assert_eq!(
        registry.admit_record(address.address(), forged(), Some(derived(&forged()))),
        Err(CertificateMismatch)
    );

    // And the configuration is committed on the same terms.
    let reconfigured = meta(1, vec![Value::U64(1)]);
    assert!(!InstanceMeta::derives(
        Some(derived(&reconfigured)),
        address.address()
    ));
}

#[test]
fn every_principal_resolves_without_an_entry() {
    let package = PackageHash(Hash32([3; 32]));
    let principal = |seed: u8| CallTarget::Principal(PrincipalAddr::new([seed; 31]));
    let mut registry = InstanceRegistry::new();
    assert_eq!(
        registry.get(principal(1)),
        None,
        "until the protocol's blueprint is bound"
    );
    registry.serve_principals(package);
    // One record answers for every principal.
    for seed in [1u8, 2, 0xFF] {
        assert_eq!(
            registry.get(principal(seed)).map(|m| m.package),
            Some(package)
        );
    }
    // A component still needs its record.
    assert_eq!(
        registry.get(CallTarget::Component(ComponentAddr::new([1; 31]))),
        None
    );
}

/// The question is total over every class: no record derives an address of
/// another one, and a record that derives nothing derives none.
#[test]
fn only_components_are_derived() {
    for class in [
        AddressClass::Principal,
        AddressClass::Package,
        AddressClass::Resource,
        AddressClass::Restricted,
        AddressClass::Native,
    ] {
        let address = Address::new([4; 31], class);
        assert!(!InstanceMeta::derives(
            Some(ComponentAddr::new([4; 31])),
            address
        ));
        assert!(!InstanceMeta::derives(None, address));
    }
    assert!(InstanceMeta::derives(
        Some(ComponentAddr::new([4; 31])),
        Address::new([4; 31], AddressClass::Component)
    ));
}

/// Creation registers a record where it derives; the first record at an
/// address stands, and its handle is shared.
#[test]
fn creation_keeps_the_first_record() {
    let mut registry = InstanceRegistry::default();
    let at = ComponentAddr::new([5; 31]);
    let target = CallTarget::Component(at);
    assert!(registry.record(target).is_none());
    assert_eq!(registry.create(meta(1, vec![]), at), at);
    assert_eq!(registry.create(meta(2, vec![]), at), at);
    assert_eq!(registry.get(target), Some(&meta(1, vec![])));
    let first = registry.record(target).expect("created");
    let second = registry.record(target).expect("created");
    assert_eq!(*first, meta(1, vec![]));
    assert!(std::sync::Arc::ptr_eq(&first, &second));
}
