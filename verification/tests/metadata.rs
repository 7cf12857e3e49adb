//! What a package's own tables read back as.
use vm_effects::dsl::{Expr, SlotRef, TargetExpr};
use vm_effects::hash::{Hash32, Hasher};
use vm_effects::metadata::{
    package_hash, protocol_width, LeafForm, PackageHash, PackageMetadata, SlotKind, SlotShape,
    SlotWidths, AMOUNT_WIDTH, AUTHORITY_WIDTH, CROSSING_ANSWER_WIDTH, CROSSING_OBLIGATION_WIDTH,
    CROSSING_WIDTH, MARKER_WIDTH, MAX_SLOT_WIDTH,
};
use vm_effects::publish::package::{numbered, Numbered};
use vm_effects::publish::{check_signature, seal_clauses, seals};
use vm_effects::shape::{NodeId, ShapeNode, TypeShape};
use vm_effects::signature::MethodSignature;
use vm_effects::types::{package_slot, SlotId, PACKAGE_SLOT_BASE};
use vm_effects::vocabulary;

/// A digest of nothing but its lengths and its last bytes.
struct Lengths;

impl Hasher for Lengths {
    fn hash(&self, domain: &[u8], parts: &Vec<Vec<u8>>) -> Hash32 {
        let mut digest = [0u8; 32];
        digest[0] = domain.len() as u8;
        digest[1] = parts.len() as u8;
        for (index, part) in parts.iter().enumerate() {
            digest[2 + index] = part.len() as u8;
            digest[16 + index] = part.last().copied().unwrap_or(0);
        }
        Hash32(digest)
    }
}

fn package() -> PackageMetadata {
    let mut metadata = PackageMetadata {
        events: vec!["paid".to_string(), "lost".to_string()],
        ..PackageMetadata::default()
    };
    for (name, most) in [("other", 4), ("paid", 8)] {
        metadata.types.push(ShapeNode {
            name: Some(name.to_string()),
            shape: TypeShape::U64,
            most,
        });
    }
    for (slot, element, width) in [
        (package_slot(1), LeafForm::Bytes, 12),
        (package_slot(0), LeafForm::Value(NodeId(1)), 8),
    ] {
        metadata.state.insert(
            slot,
            SlotShape {
                name: "held".to_string(),
                kind: SlotKind::Cell,
                element,
                width,
                denomination: None,
            },
        );
    }
    metadata
}

#[test]
fn a_package_is_addressed_by_its_artifact() {
    let mut digest = [0u8; 32];
    digest[0] = "hyperscale-vm/package".len() as u8;
    digest[1] = 1;
    digest[2] = 3;
    digest[16] = 9;
    assert_eq!(
        package_hash(&Lengths, &[7, 8, 9]),
        PackageHash(Hash32(digest))
    );
}

#[test]
fn an_event_is_read_by_index_then_by_name() {
    let metadata = package();
    assert_eq!(
        metadata.read_event(0),
        Some((&"paid".to_string(), NodeId(1)))
    );
    assert_eq!(metadata.read_event(1), None, "named, with no shape");
    assert_eq!(metadata.read_event(2), None);
}

/// An empty leaf is the absence every element reads as its own zero.
#[test]
fn a_leaf_is_read_against_what_its_slot_declares() {
    let metadata = package();
    assert_eq!(
        metadata.read_leaf(package_slot(0), &[1]),
        Some(Some(LeafForm::Value(NodeId(1))))
    );
    assert_eq!(
        metadata.read_leaf(package_slot(1), &[1]),
        Some(Some(LeafForm::Bytes))
    );
    assert_eq!(metadata.read_leaf(package_slot(0), &[]), Some(None));
    assert_eq!(metadata.read_leaf(package_slot(2), &[1]), None);
}

#[test]
fn an_instance_is_read_against_the_type_its_mark_names() {
    let metadata = package();
    assert_eq!(
        metadata.read_instance(b"paid", &[1]),
        Some(Some(NodeId(1)))
    );
    assert_eq!(metadata.read_instance(b"paid", &[]), Some(None));
    assert_eq!(metadata.read_instance(b"lost", &[1]), None);
    // A mark that is no text names nothing.
    assert_eq!(metadata.read_instance(&[0xFF, 0xFE], &[1]), None);
}

#[test]
fn a_slot_is_as_wide_as_whoever_declared_it_says() {
    let widths = package().slot_widths();
    assert_eq!(widths.width_of(package_slot(0)), 8);
    assert_eq!(widths.width_of(package_slot(1)), 12);
    assert_eq!(widths.width_of(package_slot(2)), MAX_SLOT_WIDTH);
    assert_eq!(
        widths.width_of(SlotId(vocabulary::VAULT)),
        AMOUNT_WIDTH
    );
    assert_eq!(SlotWidths::none().width_of(package_slot(0)), MAX_SLOT_WIDTH);
    assert_eq!(protocol_width(vocabulary::VAULT), 16);
    assert_eq!(protocol_width(vocabulary::NF_VAULT), 0);
    assert_eq!(protocol_width(vocabulary::HALT), 1);
    assert_eq!(protocol_width(vocabulary::RESOURCE), 2);
    assert_eq!(protocol_width(vocabulary::AUTH), AUTHORITY_WIDTH);
    assert_eq!(protocol_width(vocabulary::NULLIFIER_SLOT), MARKER_WIDTH);
    assert_eq!(protocol_width(vocabulary::COMMITTED_TX_SLOT), MARKER_WIDTH);
    for answer in [
        vocabulary::CROSSING_CLAIM_SLOT,
        vocabulary::CROSSING_DECLINE_SLOT,
    ] {
        assert_eq!(protocol_width(answer), CROSSING_ANSWER_WIDTH);
    }
    assert_eq!(
        protocol_width(vocabulary::CROSSING_OBLIGATION_SLOT),
        CROSSING_OBLIGATION_WIDTH
    );
    assert_eq!(
        protocol_width(vocabulary::ESCROW_RECORD_SLOT),
        CROSSING_WIDTH
    );
    assert_eq!(protocol_width(vocabulary::INSTANCE), MAX_SLOT_WIDTH);
    assert_eq!(protocol_width(vocabulary::CONFIG), MAX_SLOT_WIDTH);
}

/// The seal is found by what it declares, and its clauses publish.
#[test]
fn a_seal_is_the_method_writing_the_configuration_leaf() {
    let sealing = || MethodSignature {
        effects: seal_clauses(),
        ..MethodSignature::default()
    };
    assert!(seals(&sealing()));
    assert!(!seals(&MethodSignature::default()));
    assert!(check_signature(&sealing()).is_ok());
    let mut metadata = package();
    metadata
        .methods
        .insert("a".to_string(), MethodSignature::default());
    assert_eq!(metadata.seal(), None);
    metadata.methods.insert("make".to_string(), sealing());
    assert_eq!(metadata.seal(), Some((&"make".to_string(), &sealing())));
}

/// A cell and a collection at one slot are numbered apart.
#[test]
fn a_target_is_numbered_by_its_slot_and_its_shape() {
    let slot = SlotId(PACKAGE_SLOT_BASE);
    let cell = TargetExpr::Point(Expr::ChildKey {
        owner: Box::new(Expr::SelfAddr),
        slot: SlotRef::Fixed(slot),
        material: vec![],
    });
    let entry = TargetExpr::Entry {
        owner: Expr::SelfAddr,
        collection: SlotRef::Fixed(slot),
        material: vec![],
        order: Expr::Arg(0),
    };
    assert_eq!(numbered(&cell).map(Numbered::slot), Some(slot));
    assert_eq!(numbered(&entry).map(Numbered::slot), Some(slot));
    assert_ne!(numbered(&cell), numbered(&entry));
    assert_eq!(numbered(&TargetExpr::Point(Expr::SelfAddr)), None);
}
