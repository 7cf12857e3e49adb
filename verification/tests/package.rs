//! What a package's tables may say together.
use vm_effects::address::{Address, AddressClass};
use vm_effects::dsl::{Clause, Expr, ModeExpr, SlotRef, TargetExpr};
use vm_effects::effect::Moves;
use vm_effects::metadata::{
    reserved_shape, LeafForm, Name, PackageMetadata, SlotKind, SlotShape, MAX_SLOT_WIDTH,
};
use vm_effects::publish::package::{
    check_table_agreement, check_table_caps, ShapeFault, EVENT_FRAME_BYTES, MAX_CONFIG_FIELDS,
    MAX_ERROR_CODES, MAX_EVENT_BYTES_PER_TX, MAX_EVENT_PAYLOAD_BYTES, MAX_EVENT_TYPES,
};
use vm_effects::publish::{check_metadata, MetadataError};
use vm_effects::shape::{NodeId, ShapeField, ShapeNode, ShapeTable, TypeShape};
use vm_effects::signature::{MethodSignature, Totality};
use vm_effects::table::Table;
use vm_effects::types::{SlotId, Value, KERNEL_SLOT_BASE, PACKAGE_SLOT_BASE};
use vm_effects::vocabulary::VAULT;

fn judged(metadata: &PackageMetadata) -> Result<(), MetadataError> {
    check_metadata(metadata, &vec![])
}

/// A resource address, for a value cell to be keyed by.
fn a_resource() -> Expr {
    Expr::Literal(Value::Address(Address::new(
        [7; 31],
        AddressClass::Resource,
    )))
}

/// A leaf under the declaring instance, at `slot` and keyed by `material`.
fn own_point(slot: SlotId, material: Vec<Expr>) -> TargetExpr {
    TargetExpr::Point(Expr::ChildKey {
        owner: Box::new(Expr::SelfAddr),
        slot: SlotRef::Fixed(slot),
        material,
    })
}

/// The whole order-key space of a collection under the declaring instance.
fn own_interval(slot: SlotId, material: Vec<Expr>) -> TargetExpr {
    TargetExpr::Range {
        owner: Expr::SelfAddr,
        collection: SlotRef::Fixed(slot),
        material,
        lo: Expr::Literal(Value::U128(0)),
        hi: Expr::Literal(Value::U128(u128::MAX)),
        cap: Expr::Literal(Value::U64(4)),
    }
}

/// A signature declaring exactly one clause.
fn one_clause(target: TargetExpr, mode: ModeExpr, denomination: Option<Expr>) -> MethodSignature {
    MethodSignature {
        totality: Totality::Fallible,
        effects: vec![Clause::Effect {
            reach: None,
            guard: None,
            target,
            mode,
            denomination: denomination.map(Box::new),
        }],
        ..MethodSignature::default()
    }
}

/// Metadata declaring `types` and nothing else.
fn declaring(types: ShapeTable) -> PackageMetadata {
    PackageMetadata {
        types,
        ..PackageMetadata::default()
    }
}

/// The framing one event costs, in the units a signature states it in.
fn frame_bytes() -> u32 {
    u32::try_from(EVENT_FRAME_BYTES).expect("a frame fits u32")
}

/// One method emitting the package's first event at `bytes`.
fn emitting(bytes: u32) -> Table<Name, MethodSignature> {
    let mut methods = Table::new();
    methods.insert(
        "moves".to_string(),
        MethodSignature {
            emits: vec![0],
            event_bytes: bytes,
            ..MethodSignature::default()
        },
    );
    methods
}

fn push(types: &mut ShapeTable, name: Option<&str>, shape: TypeShape, most: usize) -> NodeId {
    types
        .push(ShapeNode {
            name: name.map(|name| name.to_string()),
            shape,
            most,
        })
        .expect("a place the table holds")
}

/// One type's table: `shape` under `name`.
fn one(name: &str, shape: TypeShape, most: usize) -> ShapeTable {
    let mut types = ShapeTable::new();
    push(&mut types, Some(name), shape, most);
    types
}

fn state(slot: SlotId, shape: SlotShape) -> Table<SlotId, SlotShape> {
    let mut state = Table::new();
    state.insert(slot, shape);
    state
}

/// An event's name is a promise its payload opens; a name with no shape
/// under it is a promise nothing keeps.
#[test]
fn package_an_event_with_no_shape_is_refused() {
    // The empty shape encodes to nothing, so the method that emits it is
    // bounded at its framing alone.
    let named = |types: ShapeTable| PackageMetadata {
        events: vec!["moved".to_string()],
        methods: emitting(frame_bytes()),
        types,
        ..PackageMetadata::default()
    };
    assert_eq!(
        judged(&named(ShapeTable::new())),
        Err(MetadataError::EventWithoutShape {
            name: "moved".to_string()
        })
    );
    assert_eq!(
        judged(&named(one("moved", TypeShape::Tuple(vec![]), 0))),
        Ok(())
    );
}

/// The tables alone, whichever method may emit.
#[test]
fn publish_an_event_with_no_shape_is_refused() {
    let named = |types: ShapeTable| PackageMetadata {
        events: vec!["moved".to_string()],
        types,
        ..PackageMetadata::default()
    };
    assert_eq!(
        check_table_agreement(&named(ShapeTable::new()), &vec![]),
        Err(MetadataError::EventWithoutShape {
            name: "moved".to_string()
        })
    );
    assert_eq!(
        check_table_agreement(&named(one("moved", TypeShape::Tuple(vec![]), 0)), &vec![]),
        Ok(())
    );
}

/// An index resolves to a name and a name to one shape, so a name at two
/// indices would read one event's bytes as the other's.
#[test]
fn package_one_name_at_two_event_indices_is_refused() {
    let metadata = PackageMetadata {
        events: vec!["moved".to_string(), "moved".to_string()],
        methods: emitting(frame_bytes() + 8),
        types: one("moved", TypeShape::U64, 8),
        ..PackageMetadata::default()
    };
    assert_eq!(
        judged(&metadata),
        Err(MetadataError::EventNamedTwice {
            name: "moved".to_string()
        })
    );
}

#[test]
fn publish_one_name_at_two_event_indices_is_refused() {
    let metadata = PackageMetadata {
        events: vec!["moved".to_string(), "moved".to_string()],
        types: one("moved", TypeShape::U64, 8),
        ..PackageMetadata::default()
    };
    assert_eq!(
        judged(&metadata),
        Err(MetadataError::EventNamedTwice {
            name: "moved".to_string()
        })
    );
}

fn held(element: LeafForm, width: u32) -> SlotShape {
    SlotShape {
        name: "held".to_string(),
        kind: SlotKind::Keyed,
        element,
        width,
        denomination: None,
    }
}

/// A slot's element names a node the same table holds, and a slot reaching
/// outside it would be a leaf nobody could read.
#[test]
fn package_a_slot_reaching_a_type_the_package_lacks_is_refused() {
    let holding = |types, element| PackageMetadata {
        types,
        state: state(SlotId(17), held(LeafForm::Value(element), 8)),
        ..PackageMetadata::default()
    };
    assert_eq!(
        judged(&holding(ShapeTable::new(), NodeId(3))),
        Err(MetadataError::Slot {
            slot: SlotId(17),
            source: ShapeFault::Unresolved(NodeId(3)),
        })
    );
    let mut types = ShapeTable::new();
    let word = push(&mut types, None, TypeShape::U64, 8);
    assert_eq!(judged(&holding(types, word)), Ok(()));
}

#[test]
fn publish_a_slot_reaching_a_type_the_package_lacks_is_refused() {
    let holding = |element| PackageMetadata {
        state: state(SlotId(17), held(element, 0)),
        ..PackageMetadata::default()
    };
    assert_eq!(
        judged(&holding(LeafForm::Value(NodeId(0)))),
        Err(MetadataError::Slot {
            slot: SlotId(17),
            source: ShapeFault::Unresolved(NodeId(0)),
        })
    );
    // Bytes name no type, so there is nothing for them to reach.
    assert_eq!(judged(&holding(LeafForm::Bytes)), Ok(()));
}

/// A slot's width is the one its element's shape measures, and no leaf is
/// wider than a leaf may be.
#[test]
fn a_slot_is_held_to_one_width() {
    let table = || {
        let mut types = ShapeTable::new();
        push(&mut types, None, TypeShape::U8, 1);
        let bytes = push(
            &mut types,
            None,
            TypeShape::List(Box::new(TypeShape::U8)),
            64,
        );
        let word = push(&mut types, None, TypeShape::U64, 8);
        let unit = push(&mut types, None, TypeShape::Tuple(vec![]), 0);
        (types, bytes, word, unit)
    };
    let (_, bytes, word, unit) = table();
    let holding = |element, width| PackageMetadata {
        types: table().0,
        state: state(SlotId(17), held(LeafForm::Value(element), width)),
        ..PackageMetadata::default()
    };
    let slot = SlotId(17);
    assert_eq!(
        judged(&holding(bytes, MAX_SLOT_WIDTH + 1)),
        Err(MetadataError::SlotWidthTooWide {
            slot,
            width: MAX_SLOT_WIDTH + 1,
        })
    );
    // Sixty-three bytes behind one byte of length.
    assert_eq!(
        judged(&holding(bytes, 0)),
        Err(MetadataError::SlotWidthDisagrees {
            slot,
            width: 0,
            derived: 64,
        })
    );
    assert_eq!(judged(&holding(bytes, 64)), Ok(()));
    assert_eq!(
        judged(&holding(word, 9)),
        Err(MetadataError::SlotWidthDisagrees {
            slot,
            width: 9,
            derived: 8,
        })
    );
    assert_eq!(judged(&holding(word, 8)), Ok(()));
    assert_eq!(judged(&holding(unit, 0)), Ok(()));
}

fn slot_band() {
    let at = |slot| {
        let mut types = ShapeTable::new();
        let word = push(&mut types, None, TypeShape::U64, 8);
        PackageMetadata {
            types,
            state: state(
                SlotId(slot),
                SlotShape {
                    name: "held".to_string(),
                    kind: SlotKind::Cell,
                    element: LeafForm::Value(word),
                    width: 8,
                    denomination: None,
                },
            ),
            ..PackageMetadata::default()
        }
    };
    // The protocol's vault, whose leaf every owner has already.
    assert_eq!(
        judged(&at(VAULT)),
        Err(MetadataError::SlotOutsideBand {
            slot: SlotId(VAULT)
        })
    );
    // The kernel's own band at the top, which no signature reaches.
    assert_eq!(
        judged(&at(KERNEL_SLOT_BASE)),
        Err(MetadataError::SlotOutsideBand {
            slot: SlotId(KERNEL_SLOT_BASE)
        })
    );
    assert_eq!(judged(&at(PACKAGE_SLOT_BASE)), Ok(()));
    assert_eq!(judged(&at(KERNEL_SLOT_BASE - 1)), Ok(()));
}

/// The state table is what a package declares, and the protocol's own
/// cells are declared by nobody.
#[test]
fn package_a_slot_outside_the_package_band_is_refused() {
    slot_band();
}

#[test]
fn publish_a_slot_outside_the_package_band_is_refused() {
    slot_band();
}

fn slot_contents() {
    let slot = SlotId(PACKAGE_SLOT_BASE);
    let package = |forge: MethodSignature, withdraw: MethodSignature| {
        let mut metadata = PackageMetadata::default();
        metadata.methods.insert("forge".to_string(), forge);
        metadata.methods.insert("withdraw".to_string(), withdraw);
        metadata
    };
    let disagreed = |slot| MetadataError::SlotHoldsTwoThings {
        slot,
        denominating: "withdraw".to_string(),
        plain: "forge".to_string(),
    };
    let cell = |denomination| {
        one_clause(
            own_point(slot, vec![a_resource()]),
            ModeExpr::Write { moves: Moves::Both },
            denomination,
        )
    };
    let entries = |denomination| {
        one_clause(
            own_interval(slot, vec![a_resource()]),
            ModeExpr::Write { moves: Moves::Both },
            denomination,
        )
    };

    assert_eq!(
        judged(&package(cell(None), cell(Some(a_resource())))),
        Err(disagreed(slot))
    );
    // An instance holding is the same disagreement in collection form.
    assert_eq!(
        judged(&package(entries(None), entries(Some(a_resource())))),
        Err(disagreed(slot))
    );

    // Agreement passes, whichever answer the two agree on.
    assert_eq!(judged(&package(cell(None), cell(None))), Ok(()));
    assert_eq!(
        judged(&package(cell(Some(a_resource())), cell(Some(a_resource())))),
        Ok(())
    );

    // A cell and a collection at one slot are two answers about two things.
    assert_eq!(
        judged(&package(cell(None), entries(Some(a_resource())))),
        Ok(())
    );
}

/// What a slot holds is one answer for the package that numbers it.
#[test]
fn package_two_methods_disagreeing_about_what_a_slot_holds_are_refused() {
    slot_contents();
}

#[test]
fn publish_two_methods_disagreeing_about_what_a_slot_holds_are_refused() {
    slot_contents();
}

/// Two leaves have no slot row to state a width: an event's payload, and
/// the record an instance's data cell holds. The shape bounds both.
#[test]
fn a_leaf_past_the_cap_the_kernel_traps_on_is_refused() {
    // A byte string sits behind two bytes of its own length.
    let payload = |cap: usize| {
        let mut types = ShapeTable::new();
        push(
            &mut types,
            Some("noted"),
            TypeShape::Struct(vec![ShapeField {
                name: "note".to_string(),
                shape: TypeShape::List(Box::new(TypeShape::U8)),
            }]),
            cap + 2,
        );
        PackageMetadata {
            events: vec!["noted".to_string()],
            methods: emitting(frame_bytes() + u32::try_from(cap + 2).unwrap()),
            types,
            ..PackageMetadata::default()
        }
    };
    assert_eq!(judged(&payload(MAX_EVENT_PAYLOAD_BYTES - 2)), Ok(()));
    assert_eq!(
        judged(&payload(MAX_EVENT_PAYLOAD_BYTES - 1)),
        Err(MetadataError::EventPayloadTooWide {
            name: "noted".to_string(),
            bound: MAX_EVENT_PAYLOAD_BYTES + 1,
        })
    );

    // A record no event emits still lands in a leaf.
    let record = |cap: usize| {
        declaring(one(
            "entry",
            TypeShape::List(Box::new(TypeShape::U8)),
            cap + 2,
        ))
    };
    let widest = MAX_SLOT_WIDTH as usize;
    assert_eq!(judged(&record(widest - 2)), Ok(()));
    assert_eq!(
        judged(&record(widest - 1)),
        Err(MetadataError::TypeTooWide {
            name: "entry".to_string(),
            bound: widest + 1,
        })
    );
}

fn reserved_name(name: &str, other: &str) {
    let pinned = || ShapeNode {
        name: Some(name.to_string()),
        shape: TypeShape::ByteArray(32),
        most: 32,
    };
    let reserved = vec![pinned()];
    let found = reserved_shape(&reserved, name).expect("the protocol pins it");
    assert_eq!(found, &pinned());
    assert_eq!(
        check_metadata(&declaring(one(name, TypeShape::ByteArray(32), 32)), &reserved),
        Ok(())
    );
    assert_eq!(
        check_metadata(&declaring(one(name, TypeShape::Text, 9)), &reserved),
        Err(MetadataError::ReservedType {
            name: name.to_string(),
        })
    );
    // A name the protocol does not hold is the package's own to spend.
    assert_eq!(
        check_metadata(&declaring(one(other, TypeShape::Text, 9)), &reserved),
        Ok(())
    );
}

/// The protocol's name for an address describes an address, in every
/// package that declares one.
#[test]
fn package_a_reserved_name_over_a_foreign_shape_is_refused() {
    reserved_name("ResourceAddr", "Outcome");
}

#[test]
fn publish_a_reserved_name_over_a_foreign_shape_is_refused() {
    reserved_name("resource-address", "outcome");
}

/// Every name table is bounded by what reaches an entry.
#[test]
fn a_name_table_past_the_index_the_kernel_accepts_is_refused() {
    // A name of its own per entry, each with a shape under it, so the
    // table's length is the only thing under test here.
    let events = |len: usize| {
        let named: Vec<String> = (0..len).map(|index| format!("e{index}")).collect();
        let mut types = ShapeTable::new();
        for name in &named {
            push(&mut types, Some(name), TypeShape::Tuple(vec![]), 0);
        }
        PackageMetadata {
            types,
            events: named,
            ..PackageMetadata::default()
        }
    };
    assert_eq!(check_table_caps(&events(MAX_EVENT_TYPES)), Ok(()));
    assert_eq!(
        check_table_agreement(&events(MAX_EVENT_TYPES), &vec![]),
        Ok(())
    );
    assert_eq!(
        judged(&events(MAX_EVENT_TYPES + 1)),
        Err(MetadataError::EventTable(MAX_EVENT_TYPES + 1))
    );

    let errors = |len: usize| PackageMetadata {
        errors: vec![String::new(); len],
        ..PackageMetadata::default()
    };
    assert_eq!(judged(&errors(MAX_ERROR_CODES)), Ok(()));
    assert_eq!(
        judged(&errors(MAX_ERROR_CODES + 1)),
        Err(MetadataError::ErrorTable(MAX_ERROR_CODES + 1))
    );
}

#[test]
fn a_configuration_table_names_no_field_past_its_record() {
    let config = |len: usize| PackageMetadata {
        config: vec![String::new(); len],
        ..PackageMetadata::default()
    };
    assert_eq!(judged(&config(MAX_CONFIG_FIELDS)), Ok(()));
    assert_eq!(
        judged(&config(MAX_CONFIG_FIELDS + 1)),
        Err(MetadataError::ConfigTable(MAX_CONFIG_FIELDS + 1))
    );
}

fn bounded(emits: Vec<u32>, event_bytes: u32, events: usize, most: usize) -> PackageMetadata {
    let named: Vec<String> = (0..events).map(|index| format!("e{index}")).collect();
    let mut types = ShapeTable::new();
    for name in &named {
        push(&mut types, Some(name), TypeShape::U64, most);
    }
    let mut methods = Table::new();
    methods.insert(
        "pay".to_string(),
        MethodSignature {
            emits,
            event_bytes,
            ..MethodSignature::default()
        },
    );
    PackageMetadata {
        methods,
        events: named,
        types,
        ..PackageMetadata::default()
    }
}

/// A method's event bytes are its events' payloads and their framing, and
/// nothing else.
#[test]
fn what_a_method_may_emit_is_what_its_events_come_to() {
    let frame = frame_bytes();
    assert_eq!(
        judged(&bounded(vec![0, 1], 2 * (frame + 8), 2, 8)),
        Ok(())
    );
    assert_eq!(
        judged(&bounded(vec![0, 1], 2 * (frame + 8) + 1, 2, 8)),
        Err(MetadataError::EventBytesDisagrees {
            method: "pay".to_string(),
            declared: 2 * (frame + 8) + 1,
            derived: 2 * (EVENT_FRAME_BYTES + 8),
        })
    );
    // An index past the table, and one named twice.
    for emits in [vec![2], vec![0, 0]] {
        let index = emits[emits.len() - 1];
        assert_eq!(
            judged(&bounded(emits, frame + 8, 2, 8)),
            Err(MetadataError::EmitsUnknownEvent {
                method: "pay".to_string(),
                index,
            })
        );
    }
    assert_eq!(
        judged(&bounded(vec![], 0, 1, 8)),
        Err(MetadataError::EventBytesUndeclared)
    );
    // A charge with no event behind it.
    assert_eq!(
        judged(&bounded(vec![], 64, 0, 8)),
        Err(MetadataError::EventBytesWithoutEvents)
    );
    assert_eq!(judged(&bounded(vec![], 0, 0, 8)), Ok(()));
    // An index into a table that is not there names no event at all.
    assert_eq!(
        judged(&bounded(vec![0], 64, 0, 8)),
        Err(MetadataError::EmitsUnknownEvent {
            method: "pay".to_string(),
            index: 0,
        })
    );
    // More than a transaction may emit at all.
    let many = MAX_EVENT_BYTES_PER_TX / (EVENT_FRAME_BYTES + MAX_EVENT_PAYLOAD_BYTES) + 1;
    let total = many * (EVENT_FRAME_BYTES + MAX_EVENT_PAYLOAD_BYTES);
    assert_eq!(
        judged(&bounded(
            (0..many as u32).collect(),
            total as u32,
            many,
            MAX_EVENT_PAYLOAD_BYTES
        )),
        Err(MetadataError::EventBytesTooHigh(total))
    );
}

#[test]
fn a_method_past_a_bound_is_named() {
    let mut metadata = PackageMetadata::default();
    let mut expr = Expr::Arg(0);
    for _ in 0..=vm_effects::dsl::MAX_EXPR_DEPTH {
        expr = Expr::Field(Box::new(expr), 0);
    }
    metadata.methods.insert(
        "m".to_string(),
        one_clause(TargetExpr::Point(expr), ModeExpr::Read, None),
    );
    assert_eq!(
        judged(&metadata),
        Err(MetadataError::Method {
            name: "m".to_string(),
            source: vm_effects::publish::SignatureBoundsError::ExprDepth,
        })
    );
}
