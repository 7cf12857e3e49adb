//! Coherence: what the whole metadata has to answer.
//!
//! A package's tables are read together or they say nothing. An event
//! index resolves through the table to a name and the name to one shape; a
//! slot is a leaf two methods may reach; a type name the protocol holds
//! means what the protocol says it means. None of those is a property of
//! any one signature.
use vstd::prelude::*;

use crate::dsl::{slot_of, Clause, TargetExpr};
use crate::metadata::{
    reserved_shape, LeafForm, Name, PackageMetadata, SlotShape, MAX_SLOT_WIDTH,
};
use crate::publish::bounds::{check_signature_bounds, SignatureBoundsError};
use crate::shape::{NodeId, ShapeNode, ShapeTable};
use crate::signature::MethodSignature;
use crate::table::{Table, TableKey};
use crate::types::{SlotId, KERNEL_SLOT_BASE, PACKAGE_SLOT_BASE};
use crate::verdict::position_of;

verus! {

/// The most event types one package may name.
pub const MAX_EVENT_TYPES: usize = 256;

/// The most error codes one package may name.
pub const MAX_ERROR_CODES: usize = 256;

/// The most fields an instance's configuration may hold.
pub const MAX_CONFIG_FIELDS: usize = 64;

/// The most bytes one emitted payload may hold.
pub const MAX_EVENT_PAYLOAD_BYTES: usize = 1024;

/// The most bytes one transaction's events may come to.
pub const MAX_EVENT_BYTES_PER_TX: usize = 16384;

/// What each emitted event costs beside its payload.
pub const EVENT_FRAME_BYTES: usize = 64;

/// Why a place in a shape table cannot be read.
#[derive(Clone, Copy, Debug, PartialEq, Eq, Structural)]
pub enum ShapeFault {
    /// No shape stands there.
    Unresolved(NodeId),
}

/// Why metadata is past a bound the vocabulary fixes.
#[derive(Debug, PartialEq, Eq)]
pub enum MetadataError {
    /// An event table longer than the index an emitted event can carry.
    EventTable(usize),
    /// An event table no method may emit against.
    EventBytesUndeclared,
    /// A method bounded to emit in a package that declares no events.
    EventBytesWithoutEvents,
    /// A method whose events come to more than one transaction may emit at
    /// all.
    EventBytesTooHigh(usize),
    /// A method names an event index the package's table does not hold, or
    /// names one twice.
    EmitsUnknownEvent {
        /// The method naming it.
        method: Name,
        /// The index it named.
        index: u32,
    },
    /// A method's stated event bytes are not what its events encode to.
    EventBytesDisagrees {
        /// The method whose figure disagrees.
        method: Name,
        /// What it declared.
        declared: u32,
        /// What its events derive to.
        derived: usize,
    },
    /// An event whose own payload is wider than one emit may carry.
    EventPayloadTooWide {
        /// The event past the cap.
        name: Name,
        /// What its shape measures.
        bound: usize,
    },
    /// A declared type wider than any leaf may hold.
    TypeTooWide {
        /// The type past the cap.
        name: Name,
        /// What its shape measures.
        bound: usize,
    },
    /// An error table longer than the index a declined code can carry.
    ErrorTable(usize),
    /// A configuration table longer than the record it names the fields
    /// of.
    ConfigTable(usize),
    /// A method whose signature is past a bound.
    Method {
        /// The method whose signature is refused.
        name: Name,
        /// What is past its bound.
        source: SignatureBoundsError,
    },
    /// A slot wider than a leaf may be.
    SlotWidthTooWide {
        /// The slot past the cap.
        slot: SlotId,
        /// What it declared.
        width: u32,
    },
    /// A slot whose declared width is not the width its shape derives.
    SlotWidthDisagrees {
        /// The slot whose two statements differ.
        slot: SlotId,
        /// What it declared.
        width: u32,
        /// What its shape derives.
        derived: u32,
    },
    /// An event named with no shape declared for it.
    EventWithoutShape {
        /// The event named without one.
        name: Name,
    },
    /// One name over two entries of the event table.
    EventNamedTwice {
        /// The name at both.
        name: Name,
    },
    /// A declared slot outside the band a package numbers its own state
    /// in.
    SlotOutsideBand {
        /// The slot claimed.
        slot: SlotId,
    },
    /// Two of a package's methods disagreeing about what a slot holds.
    SlotHoldsTwoThings {
        /// The slot both name.
        slot: SlotId,
        /// The method that says it holds value.
        denominating: Name,
        /// The method that says it holds bytes.
        plain: Name,
    },
    /// A declared slot whose element names a shape the package's types do
    /// not hold.
    Slot {
        /// The slot whose element is refused.
        slot: SlotId,
        /// What cannot be read about it.
        source: ShapeFault,
    },
    /// A declared type under a name the protocol holds, describing
    /// something else.
    ReservedType {
        /// The name claimed.
        name: Name,
    },
}

/// The verdict on the three table caps: what an index into each can reach.
pub open spec fn caps_verdict(metadata: PackageMetadata) -> Result<(), MetadataError> {
    if metadata.events@.len() > MAX_EVENT_TYPES {
        Err(MetadataError::EventTable(metadata.events@.len() as usize))
    } else if metadata.errors@.len() > MAX_ERROR_CODES {
        Err(MetadataError::ErrorTable(metadata.errors@.len() as usize))
    } else if metadata.config@.len() > MAX_CONFIG_FIELDS {
        Err(MetadataError::ConfigTable(metadata.config@.len() as usize))
    } else {
        Ok(())
    }
}

/// The three table caps: what an index into each can reach.
pub fn check_table_caps(metadata: &PackageMetadata) -> (r: Result<(), MetadataError>)
    ensures
        r == caps_verdict(*metadata),
{
    if metadata.events.len() > MAX_EVENT_TYPES {
        return Err(MetadataError::EventTable(metadata.events.len()));
    }
    if metadata.errors.len() > MAX_ERROR_CODES {
        return Err(MetadataError::ErrorTable(metadata.errors.len()));
    }
    if metadata.config.len() > MAX_CONFIG_FIELDS {
        return Err(MetadataError::ConfigTable(metadata.config.len()));
    }
    Ok(())
}

/// The verdict on the event named at `index`: a shape is declared under
/// its name, and no earlier index carries it.
pub open spec fn event_verdict(metadata: PackageMetadata, index: int) -> Result<
    (),
    MetadataError,
> {
    let name = metadata.events@[index];
    if metadata.types.place_of(name@) is None {
        Err(MetadataError::EventWithoutShape { name })
    } else if exists|i: int| 0 <= i < index && (#[trigger] metadata.events@[i])@ == name@ {
        Err(MetadataError::EventNamedTwice { name })
    } else {
        Ok(())
    }
}

/// The verdicts on the event table, in order.
pub open spec fn event_verdicts(metadata: PackageMetadata) -> Seq<Result<(), MetadataError>> {
    Seq::new(metadata.events@.len(), |i: int| event_verdict(metadata, i))
}

/// The verdict on one declared type: it fits a leaf, and a name the
/// protocol holds means what the protocol says. A shape with no name is
/// judged where something names it.
pub open spec fn type_verdict(node: ShapeNode, reserved: Seq<ShapeNode>) -> Result<
    (),
    MetadataError,
> {
    match node.name {
        None => Ok(()),
        Some(name) => if node.most > MAX_SLOT_WIDTH {
            Err(MetadataError::TypeTooWide { name, bound: node.most })
        } else {
            match crate::shape::first_called(reserved, name@) {
                Some(at) => if reserved[at].shape.term() != node.shape.term() {
                    Err(MetadataError::ReservedType { name })
                } else {
                    Ok(())
                },
                None => Ok(()),
            }
        },
    }
}

/// The verdicts on a package's declared types, in order.
pub open spec fn type_verdicts(types: ShapeTable, reserved: Seq<ShapeNode>) -> Seq<
    Result<(), MetadataError>,
> {
    Seq::new(types.held().len(), |i: int| type_verdict(types.held()[i], reserved))
}

/// The verdict on one declared slot: it is in the package's band, no wider
/// than a leaf, and its stated width is the one its element's shape
/// measures.
pub open spec fn state_verdict(types: ShapeTable, slot: SlotId, declared: SlotShape) -> Result<
    (),
    MetadataError,
> {
    if !(PACKAGE_SLOT_BASE <= slot.0 && slot.0 < KERNEL_SLOT_BASE) {
        Err(MetadataError::SlotOutsideBand { slot })
    } else if declared.width > MAX_SLOT_WIDTH {
        Err(MetadataError::SlotWidthTooWide { slot, width: declared.width })
    } else {
        match declared.element {
            LeafForm::Bytes => Ok(()),
            LeafForm::Value(place) => if place.0 >= types.held().len() {
                Err(MetadataError::Slot { slot, source: ShapeFault::Unresolved(place) })
            } else {
                let derived = crate::verdict::position(
                    types.held()[place.0 as int].most as nat,
                );
                if derived != declared.width {
                    Err(
                        MetadataError::SlotWidthDisagrees {
                            slot,
                            width: declared.width,
                            derived,
                        },
                    )
                } else {
                    Ok(())
                }
            },
        }
    }
}

/// The verdicts on a package's declared slots, in order.
pub open spec fn state_verdicts(metadata: PackageMetadata) -> Seq<Result<(), MetadataError>> {
    let rows = metadata.state.listed();
    Seq::new(rows.len(), |i: int| state_verdict(metadata.types, rows[i].0, rows[i].1))
}

/// Every event has a shape and one name.
fn check_events(metadata: &PackageMetadata) -> (r: Result<(), MetadataError>)
    ensures
        r == crate::verdict::first_refusal(event_verdicts(*metadata)),
{
    let ghost verdicts = event_verdicts(*metadata);
    proof {
        crate::verdict::lemma_all(verdicts);
    }
    let mut index: usize = 0;
    while index < metadata.events.len()
        invariant
            index <= metadata.events.len(),
            verdicts == event_verdicts(*metadata),
            crate::verdict::first_refusal(verdicts.take(index as int)) is Ok,
        decreases metadata.events.len() - index,
    {
        proof {
            crate::verdict::lemma_one_more(verdicts, index as int);
        }
        let name = &metadata.events[index];
        if metadata.types.named(name.as_str()).is_none() {
            return Err(MetadataError::EventWithoutShape { name: name.clone() });
        }
        let mut i: usize = 0;
        while i < index
            invariant
                i <= index < metadata.events.len(),
                *name == metadata.events@[index as int],
                metadata.types.place_of(name@) is Some,
                verdicts == event_verdicts(*metadata),
                verdicts[index as int] is Err ==> crate::verdict::first_refusal(verdicts)
                    == verdicts[index as int],
                forall|p: int| 0 <= p < i ==> (#[trigger] metadata.events@[p])@ != name@,
            decreases index - i,
        {
            if metadata.events[i] == *name {
                assert(metadata.events@[i as int]@ == name@);
                return Err(MetadataError::EventNamedTwice { name: name.clone() });
            }
            i = i + 1;
        }
        index = index + 1;
    }
    proof {
        crate::verdict::lemma_all(verdicts);
    }
    Ok(())
}

/// Every declared type inside a leaf, and every reserved name meaning what
/// the protocol says it means.
///
/// A leaf is what a declared type is stored in, so a package whose own
/// record cannot fit one is a package that traps on the call that stores
/// it. And a package may declare any type it likes but not one under the
/// protocol's name for something else.
pub fn check_types(metadata: &PackageMetadata, reserved: &Vec<ShapeNode>) -> (r: Result<
    (),
    MetadataError,
>)
    ensures
        r == crate::verdict::first_refusal(type_verdicts(metadata.types, reserved@)),
{
    let ghost verdicts = type_verdicts(metadata.types, reserved@);
    proof {
        crate::verdict::lemma_all(verdicts);
    }
    let mut i: usize = 0;
    while i < metadata.types.len()
        invariant
            i <= metadata.types.held().len(),
            verdicts == type_verdicts(metadata.types, reserved@),
            crate::verdict::first_refusal(verdicts.take(i as int)) is Ok,
        decreases metadata.types.held().len() - i,
    {
        proof {
            crate::verdict::lemma_one_more(verdicts, i as int);
        }
        let node = metadata.types.node(i);
        match &node.name {
            None => {},
            Some(name) => {
                if node.most > MAX_SLOT_WIDTH as usize {
                    return Err(
                        MetadataError::TypeTooWide { name: name.clone(), bound: node.most },
                    );
                }
                match reserved_shape(reserved, name.as_str()) {
                    Some(pinned) => {
                        if !pinned.shape.same(&node.shape) {
                            return Err(MetadataError::ReservedType { name: name.clone() });
                        }
                    },
                    None => {},
                }
            },
        }
        i = i + 1;
    }
    proof {
        crate::verdict::lemma_all(verdicts);
    }
    Ok(())
}

/// Judge one declared slot.
fn check_slot(types: &ShapeTable, slot: SlotId, declared: &SlotShape) -> (r: Result<
    (),
    MetadataError,
>)
    ensures
        r == state_verdict(*types, slot, *declared),
{
    if slot.0 < PACKAGE_SLOT_BASE || slot.0 >= KERNEL_SLOT_BASE {
        return Err(MetadataError::SlotOutsideBand { slot });
    }
    if declared.width > MAX_SLOT_WIDTH {
        return Err(MetadataError::SlotWidthTooWide { slot, width: declared.width });
    }
    match declared.element {
        // Bytes name no type, so there is nothing for them to reach.
        LeafForm::Bytes => Ok(()),
        LeafForm::Value(place) => match types.get(place) {
            None => Err(MetadataError::Slot { slot, source: ShapeFault::Unresolved(place) }),
            // A shape derives its width, which may be nothing at all for a
            // leaf whose entry is its own key; the stated figure has to be
            // that one, or a body could write past what the type holds.
            Some(node) => {
                let derived = position_of(node.most);
                if derived != declared.width {
                    Err(
                        MetadataError::SlotWidthDisagrees { slot, width: declared.width, derived },
                    )
                } else {
                    Ok(())
                }
            },
        },
    }
}

/// Every declared slot in the package's band, holding something readable.
fn check_state(metadata: &PackageMetadata) -> (r: Result<(), MetadataError>)
    ensures
        r == crate::verdict::first_refusal(state_verdicts(*metadata)),
{
    let ghost verdicts = state_verdicts(*metadata);
    proof {
        crate::verdict::lemma_all(verdicts);
    }
    let mut i: usize = 0;
    while i < metadata.state.len()
        invariant
            i <= metadata.state.listed().len(),
            verdicts == state_verdicts(*metadata),
            crate::verdict::first_refusal(verdicts.take(i as int)) is Ok,
        decreases metadata.state.listed().len() - i,
    {
        proof {
            crate::verdict::lemma_one_more(verdicts, i as int);
        }
        match check_slot(&metadata.types, *metadata.state.key(i), metadata.state.value(i)) {
            Ok(()) => {},
            Err(refusal) => {
                return Err(refusal);
            },
        }
        i = i + 1;
    }
    proof {
        crate::verdict::lemma_all(verdicts);
    }
    Ok(())
}

/// The verdict on the `index`-th event a method emits: the package's table
/// holds it, and the method named no earlier one the same.
pub open spec fn emit_verdict(
    events: Seq<Name>,
    method: Name,
    emits: Seq<u32>,
    index: int,
) -> Result<(), MetadataError> {
    let named = emits[index];
    if named >= events.len() {
        Err(MetadataError::EmitsUnknownEvent { method, index: named })
    } else if exists|i: int|
        0 <= i < index && #[trigger] emits[i] < events.len() && events[emits[i] as int]@
            == events[named as int]@ {
        Err(MetadataError::EmitsUnknownEvent { method, index: named })
    } else {
        Ok(())
    }
}

/// The verdicts on the events a method emits, in order.
pub open spec fn emit_verdicts(events: Seq<Name>, method: Name, emits: Seq<u32>) -> Seq<
    Result<(), MetadataError>,
> {
    Seq::new(emits.len(), |i: int| emit_verdict(events, method, emits, i))
}

/// The verdict on the payload of the `index`-th event a method emits.
pub open spec fn payload_verdict(
    metadata: PackageMetadata,
    emits: Seq<u32>,
    index: int,
) -> Result<(), MetadataError> {
    let name = metadata.events@[emits[index] as int];
    match metadata.types.place_of(name@) {
        None => Err(MetadataError::EventWithoutShape { name }),
        Some(place) => if metadata.types.held()[place].most > MAX_EVENT_PAYLOAD_BYTES {
            Err(
                MetadataError::EventPayloadTooWide {
                    name,
                    bound: metadata.types.held()[place].most,
                },
            )
        } else {
            Ok(())
        },
    }
}

/// The verdicts on the payloads a method emits, in order.
pub open spec fn payload_verdicts(metadata: PackageMetadata, emits: Seq<u32>) -> Seq<
    Result<(), MetadataError>,
> {
    Seq::new(emits.len(), |i: int| payload_verdict(metadata, emits, i))
}

/// A sum held to the greatest a count can be.
pub open spec fn held_sum(left: nat, right: nat) -> nat {
    if left + right > usize::MAX {
        usize::MAX as nat
    } else {
        left + right
    }
}

/// What a method's events come to: each one's frame beside the most its
/// payload may be.
pub open spec fn emitted_bytes(metadata: PackageMetadata, emits: Seq<u32>) -> nat
    decreases emits.len(),
{
    if emits.len() == 0 {
        0
    } else {
        let name = metadata.events@[emits.last() as int]@;
        let most = match metadata.types.place_of(name) {
            Some(place) => metadata.types.held()[place].most as nat,
            None => 0,
        };
        held_sum(
            held_sum(emitted_bytes(metadata, emits.drop_last()), EVENT_FRAME_BYTES as nat),
            most,
        )
    }
}

/// The verdict on what one method emits.
pub open spec fn method_events_verdict(
    metadata: PackageMetadata,
    method: Name,
    signature: MethodSignature,
) -> Result<(), MetadataError> {
    let emits = signature.emits@;
    let derived = emitted_bytes(metadata, emits);
    crate::verdict::followed_by(
        crate::verdict::first_refusal(emit_verdicts(metadata.events@, method, emits)),
        crate::verdict::followed_by(
            crate::verdict::first_refusal(payload_verdicts(metadata, emits)),
            if derived > MAX_EVENT_BYTES_PER_TX {
                Err(MetadataError::EventBytesTooHigh(derived as usize))
            } else if signature.event_bytes != derived && metadata.events@.len() == 0 {
                Err(MetadataError::EventBytesWithoutEvents)
            } else if signature.event_bytes != derived {
                Err(
                    MetadataError::EventBytesDisagrees {
                        method,
                        declared: signature.event_bytes,
                        derived: derived as usize,
                    },
                )
            } else {
                Ok(())
            },
        ),
    )
}

/// The verdicts on what each method emits, in order.
pub open spec fn method_events_verdicts(metadata: PackageMetadata) -> Seq<
    Result<(), MetadataError>,
> {
    let rows = metadata.methods.listed();
    Seq::new(rows.len(), |i: int| method_events_verdict(metadata, rows[i].0, rows[i].1))
}

/// Whether any method of a package emits anything.
pub open spec fn emits_anything(metadata: PackageMetadata) -> bool {
    exists|i: int|
        0 <= i < metadata.methods.listed().len() && (
        #[trigger] metadata.methods.listed()[i]).1.emits@.len() > 0
}

/// The verdict on the event bounds read with the event table.
pub open spec fn events_verdict(metadata: PackageMetadata) -> Result<(), MetadataError> {
    crate::verdict::followed_by(
        crate::verdict::first_refusal(method_events_verdicts(metadata)),
        if metadata.events@.len() > 0 && !emits_anything(metadata) {
            Err(MetadataError::EventBytesUndeclared)
        } else {
            Ok(())
        },
    )
}

/// Every event a method emits is one the package declares once.
///
/// An index past the table names a shape nobody registered, and a repeat
/// would charge one event's bytes twice.
fn check_emits(events: &Vec<Name>, method: &Name, emits: &Vec<u32>) -> (r: Result<
    (),
    MetadataError,
>)
    ensures
        r == crate::verdict::first_refusal(emit_verdicts(events@, *method, emits@)),
        r is Ok ==> forall|i: int| 0 <= i < emits@.len() ==> #[trigger] emits@[i] < events@.len(),
{
    let ghost verdicts = emit_verdicts(events@, *method, emits@);
    proof {
        crate::verdict::lemma_all(verdicts);
    }
    let mut index: usize = 0;
    while index < emits.len()
        invariant
            index <= emits.len(),
            verdicts == emit_verdicts(events@, *method, emits@),
            crate::verdict::first_refusal(verdicts.take(index as int)) is Ok,
            forall|i: int| 0 <= i < index ==> #[trigger] emits@[i] < events@.len(),
        decreases emits.len() - index,
    {
        proof {
            crate::verdict::lemma_one_more(verdicts, index as int);
        }
        let named = emits[index];
        if named as usize >= events.len() {
            return Err(MetadataError::EmitsUnknownEvent { method: method.clone(), index: named });
        }
        let mut i: usize = 0;
        while i < index
            invariant
                i <= index < emits.len(),
                named == emits@[index as int],
                named < events@.len(),
                verdicts == emit_verdicts(events@, *method, emits@),
                verdicts[index as int] is Err ==> crate::verdict::first_refusal(verdicts)
                    == verdicts[index as int],
                forall|p: int| 0 <= p < index ==> #[trigger] emits@[p] < events@.len(),
                forall|p: int|
                    0 <= p < i ==> events@[#[trigger] emits@[p] as int]@ != events@[named as int]@,
            decreases index - i,
        {
            if events[emits[i] as usize] == events[named as usize] {
                assert(emits@[i as int] < events@.len());
                return Err(
                    MetadataError::EmitsUnknownEvent { method: method.clone(), index: named },
                );
            }
            i = i + 1;
        }
        index = index + 1;
    }
    proof {
        crate::verdict::lemma_all(verdicts);
    }
    Ok(())
}

/// Every payload a method emits inside what one emit may carry, and what
/// they come to together.
///
/// Each event's framing counts beside its payload, because a receipt
/// carries both.
fn check_payloads(metadata: &PackageMetadata, emits: &Vec<u32>) -> (r: Result<
    usize,
    MetadataError,
>)
    requires
        forall|i: int| 0 <= i < emits@.len() ==> #[trigger] emits@[i] < metadata.events@.len(),
    ensures
        match r {
            Ok(derived) => crate::verdict::first_refusal(payload_verdicts(*metadata, emits@)) is Ok
                && derived == emitted_bytes(*metadata, emits@),
            Err(refusal) => crate::verdict::first_refusal(payload_verdicts(*metadata, emits@))
                == Err::<(), MetadataError>(refusal),
        },
{
    let ghost verdicts = payload_verdicts(*metadata, emits@);
    proof {
        crate::verdict::lemma_all(verdicts);
    }
    let mut derived: usize = 0;
    let mut i: usize = 0;
    assert(emits@.take(0) =~= Seq::empty());
    while i < emits.len()
        invariant
            i <= emits.len(),
            forall|j: int| 0 <= j < emits@.len() ==> #[trigger] emits@[j] < metadata.events@.len(),
            verdicts == payload_verdicts(*metadata, emits@),
            crate::verdict::first_refusal(verdicts.take(i as int)) is Ok,
            derived == emitted_bytes(*metadata, emits@.take(i as int)),
        decreases emits.len() - i,
    {
        proof {
            crate::verdict::lemma_one_more(verdicts, i as int);
            assert(emits@.take(i as int + 1).drop_last() =~= emits@.take(i as int));
            assert(emits@.take(i as int + 1).last() == emits@[i as int]);
        }
        let name = &metadata.events[emits[i] as usize];
        let place = match metadata.types.named(name.as_str()) {
            Some(place) => place,
            None => {
                return Err(MetadataError::EventWithoutShape { name: name.clone() });
            },
        };
        let bound = metadata.types.node(place.0 as usize).most;
        if bound > MAX_EVENT_PAYLOAD_BYTES {
            return Err(MetadataError::EventPayloadTooWide { name: name.clone(), bound });
        }
        derived = derived.saturating_add(EVENT_FRAME_BYTES).saturating_add(bound);
        i = i + 1;
    }
    proof {
        assert(emits@.take(i as int) =~= emits@);
        crate::verdict::lemma_all(verdicts);
    }
    Ok(derived)
}

/// Judge what one method emits.
fn check_method_events(
    metadata: &PackageMetadata,
    method: &Name,
    signature: &MethodSignature,
) -> (r: Result<(), MetadataError>)
    ensures
        r == method_events_verdict(*metadata, *method, *signature),
{
    match check_emits(&metadata.events, method, &signature.emits) {
        Ok(()) => {},
        Err(refusal) => {
            return Err(refusal);
        },
    }
    // An event's widest encoding is a figure its shape measures. The
    // author names the events; the bytes are derived, and a declaration
    // that disagrees is refused on the terms a slot's width is.
    let derived = match check_payloads(metadata, &signature.emits) {
        Ok(derived) => derived,
        Err(refusal) => {
            return Err(refusal);
        },
    };
    if derived > MAX_EVENT_BYTES_PER_TX {
        return Err(MetadataError::EventBytesTooHigh(derived));
    }
    if signature.event_bytes as usize != derived {
        // With no events to encode, there is nothing for the figure to
        // disagree with: it charges for what the package cannot do.
        if metadata.events.len() == 0 {
            return Err(MetadataError::EventBytesWithoutEvents);
        }
        return Err(
            MetadataError::EventBytesDisagrees {
                method: method.clone(),
                declared: signature.event_bytes,
                derived,
            },
        );
    }
    Ok(())
}

/// The event bounds read with the event table: a package that emits has a
/// method that may, one that does not has none, and no call may emit more
/// than a transaction may carry.
///
/// Per method, so a package's emissions are priced where they are
/// authored. Beside that, the two tables are checked against each other: a
/// declared event nothing may emit is a table that means nothing, and a
/// bound with no event behind it is a charge for something the package
/// cannot do.
pub fn check_event_bounds(metadata: &PackageMetadata) -> (r: Result<(), MetadataError>)
    ensures
        r == events_verdict(*metadata),
{
    let ghost rows = metadata.methods.listed();
    let ghost verdicts = method_events_verdicts(*metadata);
    proof {
        crate::verdict::lemma_all(verdicts);
    }
    let mut emits = false;
    let mut i: usize = 0;
    while i < metadata.methods.len()
        invariant
            i <= rows.len(),
            rows == metadata.methods.listed(),
            verdicts == method_events_verdicts(*metadata),
            crate::verdict::first_refusal(verdicts.take(i as int)) is Ok,
            emits == exists|j: int| 0 <= j < i && (#[trigger] rows[j]).1.emits@.len() > 0,
        decreases rows.len() - i,
    {
        proof {
            crate::verdict::lemma_one_more(verdicts, i as int);
        }
        let signature = metadata.methods.value(i);
        match check_method_events(metadata, metadata.methods.key(i), signature) {
            Ok(()) => {},
            Err(refusal) => {
                return Err(refusal);
            },
        }
        if signature.emits.len() > 0 {
            assert(rows[i as int].1.emits@.len() > 0);
            emits = true;
        }
        i = i + 1;
    }
    proof {
        crate::verdict::lemma_all(verdicts);
    }
    if metadata.events.len() > 0 && !emits {
        return Err(MetadataError::EventBytesUndeclared);
    }
    Ok(())
}

/// Which leaves a slot numbers: a cell's, or a collection's entries.
///
/// Two spaces rather than one, because a cell at a slot and a collection
/// at the same slot are leaves nothing can bring together.
#[derive(Clone, Copy, Debug, PartialEq, Eq, Structural)]
pub enum Numbered {
    /// The cell the slot names under an owner.
    Cell(SlotId),
    /// Every entry of the collection the slot names under an owner.
    Entries(SlotId),
}

impl Numbered {
    /// The slot, whichever space it numbers in.
    pub open spec fn at(self) -> SlotId {
        match self {
            Numbered::Cell(slot) => slot,
            Numbered::Entries(slot) => slot,
        }
    }

    /// Which of the two spaces it numbers in.
    pub open spec fn space(self) -> int {
        match self {
            Numbered::Cell(_) => 0,
            Numbered::Entries(_) => 1,
        }
    }

    /// The slot, whichever space it numbers in.
    pub fn slot(self) -> (r: SlotId)
        ensures
            r == self.at(),
    {
        match self {
            Numbered::Cell(slot) => slot,
            Numbered::Entries(slot) => slot,
        }
    }

    /// Two are listed at one place exactly where they number the same
    /// leaves.
    proof fn lemma_ordinal(self, other: Numbered)
        ensures
            (self.ordinal() == other.ordinal()) == (self == other),
            self.ordinal()[0] == self.space(),
            self.ordinal()[1] == self.at().0,
            crate::table::before(self.ordinal(), other.ordinal()) == (self.space() < other.space()
                || (self.space() == other.space() && self.at().0 < other.at().0)),
    {
        let left = self.ordinal();
        let right = other.ordinal();
        assert(left[0] == self.space() && left[1] == self.at().0);
        assert(right[0] == other.space() && right[1] == other.at().0);
        assert(left.skip(1)[0] == left[1] && right.skip(1)[0] == right[1]);
        assert(left.skip(1).skip(1).len() == 0 && right.skip(1).skip(1).len() == 0);
        reveal_with_fuel(crate::table::before, 4);
    }
}

impl TableKey for Numbered {
    open spec fn ordinal(self) -> Seq<int> {
        seq![self.space(), self.at().0 as int]
    }

    fn precedes(&self, other: &Self) -> (r: bool) {
        proof {
            self.lemma_ordinal(*other);
        }
        match (self, other) {
            (Numbered::Cell(left), Numbered::Cell(right)) => left.0 < right.0,
            (Numbered::Cell(_), Numbered::Entries(_)) => true,
            (Numbered::Entries(_), Numbered::Cell(_)) => false,
            (Numbered::Entries(left), Numbered::Entries(right)) => left.0 < right.0,
        }
    }

    fn coincides(&self, other: &Self) -> (r: bool) {
        proof {
            self.lemma_ordinal(*other);
        }
        *self == *other
    }
}

/// Which leaves a target's slot numbers, where it names one that is
/// written down.
pub open spec fn numbered_by(target: TargetExpr) -> Option<Numbered> {
    match crate::dsl::named_slot(target) {
        Some((reference, _)) => match reference.constant() {
            Some(slot) => Some(
                if target is Point {
                    Numbered::Cell(slot)
                } else {
                    Numbered::Entries(slot)
                },
            ),
            None => None,
        },
        None => None,
    }
}

/// Which leaves a target's slot numbers, where it names one.
pub fn numbered(target: &TargetExpr) -> (r: Option<Numbered>)
    ensures
        r == numbered_by(*target),
{
    match slot_of(target) {
        Some((reference, _)) => match reference.fixed() {
            Some(slot) => match target {
                TargetExpr::Point(_) => Some(Numbered::Cell(slot)),
                _ => Some(Numbered::Entries(slot)),
            },
            None => None,
        },
        None => None,
    }
}

/// Whether a clause says anything about the leaves a slot numbers.
pub open spec fn speaks_of(clause: Clause, leaves: Numbered) -> bool {
    crate::publish::declaration::is_access(clause) && numbered_by(
        crate::publish::declaration::access_target(clause),
    ) == Some(leaves)
}

/// Whether a method says the leaves a slot numbers hold value: what the
/// first of its clauses to speak of them says.
pub open spec fn method_answer(flat: Seq<Clause>, leaves: Numbered) -> Option<bool>
    decreases flat.len(),
{
    if flat.len() == 0 {
        None
    } else {
        match method_answer(flat.drop_last(), leaves) {
            Some(said) => Some(said),
            None => if speaks_of(flat.last(), leaves) {
                Some(crate::publish::declaration::access_denomination(flat.last()) is Some)
            } else {
                None
            },
        }
    }
}

/// What the method at `index` of a package's table says of the leaves a
/// slot numbers.
pub open spec fn answer_at(
    methods: Seq<(Name, MethodSignature)>,
    index: int,
    leaves: Numbered,
) -> Option<bool> {
    method_answer(Clause::preorder(methods[index].1.effects@), leaves)
}

/// The first of a package's methods, before `end`, to say anything of the
/// leaves a slot numbers.
pub open spec fn first_to_say(
    methods: Seq<(Name, MethodSignature)>,
    end: int,
    leaves: Numbered,
) -> Option<int>
    decreases end,
{
    if end <= 0 {
        None
    } else {
        match first_to_say(methods, end - 1, leaves) {
            Some(first) => Some(first),
            None => if answer_at(methods, end - 1, leaves) is Some {
                Some(end - 1)
            } else {
                None
            },
        }
    }
}

/// Whether the method at `index` disagrees with the first to say anything
/// of the leaves a slot numbers.
pub open spec fn disagrees(
    methods: Seq<(Name, MethodSignature)>,
    index: int,
    leaves: Numbered,
) -> bool {
    &&& 0 <= index < methods.len()
    &&& answer_at(methods, index, leaves) is Some
    &&& first_to_say(methods, index, leaves) matches Some(first) && answer_at(
        methods,
        first,
        leaves,
    ) != answer_at(methods, index, leaves)
}

/// Whether this is the disagreement met first: by the first method to
/// disagree, about the first leaves it disagrees about.
pub open spec fn first_disagreement(
    methods: Seq<(Name, MethodSignature)>,
    index: int,
    leaves: Numbered,
) -> bool {
    &&& disagrees(methods, index, leaves)
    &&& forall|other: int, others: Numbered|
        other < index ==> !#[trigger] disagrees(methods, other, others)
    &&& forall|others: Numbered|
        #[trigger] disagrees(methods, index, others) ==> !crate::table::before(
            others.ordinal(),
            leaves.ordinal(),
        )
}

/// The refusal a disagreement earns.
pub open spec fn two_things(
    methods: Seq<(Name, MethodSignature)>,
    index: int,
    leaves: Numbered,
) -> MetadataError {
    let first = first_to_say(methods, index, leaves)->Some_0;
    if answer_at(methods, first, leaves) == Some(true) {
        MetadataError::SlotHoldsTwoThings {
            slot: leaves.at(),
            denominating: methods[first].0,
            plain: methods[index].0,
        }
    } else {
        MetadataError::SlotHoldsTwoThings {
            slot: leaves.at(),
            denominating: methods[index].0,
            plain: methods[first].0,
        }
    }
}

/// The verdict on what a package's slots hold: one answer for each, or the
/// disagreement met first.
pub open spec fn contents_verdict(methods: Seq<(Name, MethodSignature)>) -> Result<
    (),
    MetadataError,
> {
    if exists|index: int, leaves: Numbered| disagrees(methods, index, leaves) {
        let (index, leaves) = choose|index: int, leaves: Numbered|
            first_disagreement(methods, index, leaves);
        Err(two_things(methods, index, leaves))
    } else {
        Ok(())
    }
}

/// There is one disagreement met first.
proof fn lemma_one_first_disagreement(
    methods: Seq<(Name, MethodSignature)>,
    index: int,
    leaves: Numbered,
)
    requires
        first_disagreement(methods, index, leaves),
    ensures
        contents_verdict(methods) == Err::<(), MetadataError>(two_things(methods, index, leaves)),
{
    let (at, about) = choose|at: int, about: Numbered| first_disagreement(methods, at, about);
    assert(first_disagreement(methods, at, about));
    assert(disagrees(methods, at, about) && disagrees(methods, index, leaves));
    assert(at == index);
    leaves.lemma_ordinal(about);
    about.lemma_ordinal(leaves);
    crate::table::lemma_before_is_total(leaves.ordinal(), about.ordinal());
}

/// A method's answers: for each slot it speaks of, whether it says the
/// leaves hold value.
fn answers(signature: &MethodSignature) -> (r: Table<Numbered, bool>)
    ensures
        forall|leaves: Numbered|
            #[trigger] r.under(leaves.ordinal()) == method_answer(
                Clause::preorder(signature.effects@),
                leaves,
            ),
{
    let flat = Clause::flatten(&signature.effects);
    let ghost all = flat@.unref();
    let mut says: Table<Numbered, bool> = Table::new();
    let mut i: usize = 0;
    assert(all.take(0) =~= Seq::empty());
    while i < flat.len()
        invariant
            i <= flat.len(),
            all == flat@.unref(),
            forall|leaves: Numbered|
                #[trigger] says.under(leaves.ordinal()) == method_answer(
                    all.take(i as int),
                    leaves,
                ),
        decreases flat.len() - i,
    {
        proof {
            assert(all.take(i as int + 1).drop_last() =~= all.take(i as int));
            assert(all.take(i as int + 1).last() == *flat@[i as int]);
        }
        match flat[i] {
            Clause::Effect { reach: None, target, denomination, .. } => {
                match numbered(target) {
                    Some(found) => {
                        let ghost before = says;
                        says.insert_first(found, denomination.is_some());
                        proof {
                            assert forall|leaves: Numbered|
                                #[trigger] says.under(leaves.ordinal()) == method_answer(
                                    all.take(i as int + 1),
                                    leaves,
                                ) by {
                                leaves.lemma_ordinal(found);
                                assert(before.under(leaves.ordinal()) == method_answer(
                                    all.take(i as int),
                                    leaves,
                                ));
                            }
                        }
                    },
                    None => {},
                }
            },
            _ => {},
        }
        i = i + 1;
    }
    assert(all.take(i as int) =~= all);
    says
}

/// Whether what has been answered is what the methods before `end` said
/// first.
spec fn answered_so_far(
    answered: Table<Numbered, (bool, usize)>,
    methods: Seq<(Name, MethodSignature)>,
    end: int,
) -> bool {
    forall|leaves: Numbered|
        #[trigger] answered.under(leaves.ordinal()) == (match first_to_say(methods, end, leaves) {
            Some(first) => Some((answer_at(methods, first, leaves)->Some_0, first as usize)),
            None => None,
        })
}

/// The first to say anything said something, and stands before the end.
pub proof fn lemma_first_said(
    methods: Seq<(Name, MethodSignature)>,
    end: int,
    leaves: Numbered,
)
    ensures
        first_to_say(methods, end, leaves) matches Some(first) ==> 0 <= first < end && answer_at(
            methods,
            first,
            leaves,
        ) is Some,
    decreases end,
{
    if end > 0 {
        lemma_first_said(methods, end - 1, leaves);
    }
}

/// Compare one method's answers with what was answered before it, in the
/// slots' own order.
fn find_disagreement(
    methods: &Table<Name, MethodSignature>,
    index: usize,
    says: &Table<Numbered, bool>,
    answered: &Table<Numbered, (bool, usize)>,
) -> (r: Option<MetadataError>)
    requires
        index < methods.listed().len(),
        methods.listed().len() <= usize::MAX,
        forall|leaves: Numbered|
            #[trigger] says.under(leaves.ordinal()) == answer_at(
                methods.listed(),
                index as int,
                leaves,
            ),
        answered_so_far(*answered, methods.listed(), index as int),
        forall|other: int, others: Numbered|
            other < index ==> !#[trigger] disagrees(methods.listed(), other, others),
    ensures
        match r {
            Some(refusal) => contents_verdict(methods.listed()) == Err::<(), MetadataError>(
                refusal,
            ),
            None => forall|leaves: Numbered|
                !#[trigger] disagrees(methods.listed(), index as int, leaves),
        },
{
    let ghost all = methods.listed();
    let ghost entries = says.listed();
    let count = says.len();
    let mut k: usize = 0;
    while k < count
        invariant
            k <= count,
            count == entries.len(),
            entries == says.listed(),
            crate::table::ordered(entries),
            all == methods.listed(),
            index < all.len(),
            all.len() <= usize::MAX,
            forall|leaves: Numbered|
                #[trigger] says.under(leaves.ordinal()) == answer_at(all, index as int, leaves),
            answered_so_far(*answered, all, index as int),
            forall|other: int, others: Numbered|
                other < index ==> !#[trigger] disagrees(all, other, others),
            forall|j: int|
                0 <= j < k ==> !disagrees(all, index as int, (#[trigger] entries[j]).0),
        decreases count - k,
    {
        let leaves = *says.key(k);
        let holds = *says.value(k);
        proof {
            crate::table::lemma_ordered_value(entries, k as int);
            assert(says.under(leaves.ordinal()) == Some(holds));
            lemma_first_said(all, index as int, leaves);
        }
        match answered.get(&leaves) {
            Some(heard) => {
                let said = heard.0;
                let first = heard.1;
                assert(answered.under(leaves.ordinal()) == Some(*heard));
                if said != holds {
                    proof {
                        assert(disagrees(all, index as int, leaves));
                        assert forall|others: Numbered|
                            #[trigger] disagrees(all, index as int, others) implies !crate::table::before(
                            others.ordinal(),
                            leaves.ordinal(),
                        ) by {
                            assert(says.under(others.ordinal()) is Some);
                            let j = crate::table::lemma_value_stands(entries, others.ordinal());
                            others.lemma_ordinal(entries[j].0);
                            if j > k {
                                assert(crate::table::before(
                                    entries[k as int].0.ordinal(),
                                    entries[j].0.ordinal(),
                                ));
                                if crate::table::before(others.ordinal(), leaves.ordinal()) {
                                    crate::table::lemma_before_is_transitive(
                                        leaves.ordinal(),
                                        others.ordinal(),
                                        leaves.ordinal(),
                                    );
                                    crate::table::lemma_not_before_itself(leaves.ordinal());
                                }
                            } else {
                                crate::table::lemma_not_before_itself(leaves.ordinal());
                            }
                        }
                        lemma_one_first_disagreement(all, index as int, leaves);
                    }
                    if said {
                        return Some(
                            MetadataError::SlotHoldsTwoThings {
                                slot: leaves.slot(),
                                denominating: methods.key(first).clone(),
                                plain: methods.key(index).clone(),
                            },
                        );
                    }
                    return Some(
                        MetadataError::SlotHoldsTwoThings {
                            slot: leaves.slot(),
                            denominating: methods.key(index).clone(),
                            plain: methods.key(first).clone(),
                        },
                    );
                }
            },
            None => {
                assert(answered.under(leaves.ordinal()) is None);
            },
        }
        k = k + 1;
    }
    proof {
        assert forall|leaves: Numbered| !#[trigger] disagrees(all, index as int, leaves) by {
            if disagrees(all, index as int, leaves) {
                assert(says.under(leaves.ordinal()) is Some);
                let j = crate::table::lemma_value_stands(entries, leaves.ordinal());
                leaves.lemma_ordinal(entries[j].0);
            }
        }
    }
    None
}

/// Record what one method said of every slot nothing had spoken of.
fn record_answers(
    methods: &Table<Name, MethodSignature>,
    index: usize,
    says: &Table<Numbered, bool>,
    answered: &mut Table<Numbered, (bool, usize)>,
)
    requires
        index < methods.listed().len(),
        forall|leaves: Numbered|
            #[trigger] says.under(leaves.ordinal()) == answer_at(
                methods.listed(),
                index as int,
                leaves,
            ),
        answered_so_far(*old(answered), methods.listed(), index as int),
    ensures
        answered_so_far(*final(answered), methods.listed(), index as int + 1),
{
    let ghost start = *answered;
    let ghost entries = says.listed();
    let count = says.len();
    let mut k: usize = 0;
    assert(entries.take(0) =~= Seq::empty());
    while k < count
        invariant
            k <= count,
            count == entries.len(),
            entries == says.listed(),
            crate::table::ordered(entries),
            forall|leaves: Numbered|
                #[trigger] answered.under(leaves.ordinal()) == (match start.under(
                    leaves.ordinal(),
                ) {
                    Some(heard) => Some(heard),
                    None => match crate::table::value_under(
                        entries.take(k as int),
                        leaves.ordinal(),
                    ) {
                        Some(holds) => Some((holds, index)),
                        None => None,
                    },
                }),
        decreases count - k,
    {
        let leaves = *says.key(k);
        let holds = *says.value(k);
        let ghost before = *answered;
        answered.insert_first(leaves, (holds, index));
        proof {
            let shorter = entries.take(k as int);
            let longer = entries.take(k as int + 1);
            assert(longer =~= shorter.push(entries[k as int]));
            assert forall|i: int, j: int| 0 <= i < j < longer.len() implies crate::table::before(
                (#[trigger] longer[i]).0.ordinal(),
                (#[trigger] longer[j]).0.ordinal(),
            ) by {
                assert(crate::table::before(entries[i].0.ordinal(), entries[j].0.ordinal()));
            }
            crate::table::lemma_ordered_value(longer, k as int);
            crate::table::lemma_nothing_before(longer, k as int);
            assert(longer.take(k as int) =~= shorter);
            assert(longer[k as int] == entries[k as int]);
            assert forall|others: Numbered|
                #[trigger] answered.under(others.ordinal()) == (match start.under(
                    others.ordinal(),
                ) {
                    Some(heard) => Some(heard),
                    None => match crate::table::value_under(longer, others.ordinal()) {
                        Some(said) => Some((said, index)),
                        None => None,
                    },
                }) by {
                others.lemma_ordinal(leaves);
                assert(before.under(others.ordinal()) == (match start.under(others.ordinal()) {
                    Some(heard) => Some(heard),
                    None => match crate::table::value_under(shorter, others.ordinal()) {
                        Some(said) => Some((said, index)),
                        None => None,
                    },
                }));
                if others != leaves {
                    crate::table::lemma_value_under_push(
                        shorter,
                        entries[k as int],
                        others.ordinal(),
                    );
                }
            }
        }
        k = k + 1;
    }
    proof {
        assert(entries.take(k as int) =~= entries);
        let all = methods.listed();
        assert forall|leaves: Numbered|
            #[trigger] answered.under(leaves.ordinal()) == (match first_to_say(
                all,
                index as int + 1,
                leaves,
            ) {
                Some(first) => Some((answer_at(all, first, leaves)->Some_0, first as usize)),
                None => None,
            }) by {
            assert(start.under(leaves.ordinal()) == (match first_to_say(all, index as int, leaves) {
                Some(first) => Some((answer_at(all, first, leaves)->Some_0, first as usize)),
                None => None,
            }));
            assert(says.under(leaves.ordinal()) == crate::table::value_under(
                entries,
                leaves.ordinal(),
            ));
        }
    }
}

/// What a slot holds is one answer for the package that numbers it.
///
/// A denomination chooses which handle a clause materializes, and the two
/// share no operation, so a slot one method denominates and another does
/// not is a leaf reached as a vault and as a byte cell in turn. Two methods
/// are judged one at a time and their calls need not share a transaction,
/// so this is judged where the whole metadata is in hand.
///
/// Per slot rather than per target expression, which is what makes it
/// total: two clauses land on one leaf only if they carry the same slot.
pub fn check_slot_contents(metadata: &PackageMetadata) -> (r: Result<(), MetadataError>)
    ensures
        r == contents_verdict(metadata.methods.listed()),
{
    let ghost all = metadata.methods.listed();
    let mut answered: Table<Numbered, (bool, usize)> = Table::new();
    let count = metadata.methods.len();
    let mut i: usize = 0;
    while i < count
        invariant
            i <= count,
            count == all.len(),
            all == metadata.methods.listed(),
            answered_so_far(answered, all, i as int),
            forall|other: int, others: Numbered|
                other < i ==> !#[trigger] disagrees(all, other, others),
        decreases count - i,
    {
        let says = answers(metadata.methods.value(i));
        match find_disagreement(&metadata.methods, i, &says, &answered) {
            Some(refusal) => {
                return Err(refusal);
            },
            None => {},
        }
        record_answers(&metadata.methods, i, &says, &mut answered);
        i = i + 1;
    }
    Ok(())
}

/// The first to say anything is the same wherever the search ends past
/// it.
proof fn lemma_first_stays_first(
    methods: Seq<(Name, MethodSignature)>,
    near: int,
    far: int,
    leaves: Numbered,
)
    requires
        near <= far,
        first_to_say(methods, near, leaves) is Some,
    ensures
        first_to_say(methods, far, leaves) == first_to_say(methods, near, leaves),
    decreases far - near,
{
    if near < far {
        lemma_first_stays_first(methods, near, far - 1, leaves);
        if far <= 0 {
            lemma_first_said(methods, near, leaves);
        }
    }
}

/// In a package whose slots hold one thing each, no two methods answer
/// differently about the leaves a slot numbers.
pub proof fn law_slots_hold_one_thing(
    methods: Seq<(Name, MethodSignature)>,
    i: int,
    j: int,
    leaves: Numbered,
)
    requires
        contents_verdict(methods) is Ok,
        0 <= i < j < methods.len(),
        answer_at(methods, i, leaves) is Some,
        answer_at(methods, j, leaves) is Some,
    ensures
        answer_at(methods, i, leaves) == answer_at(methods, j, leaves),
{
    assert(!disagrees(methods, i, leaves));
    assert(!disagrees(methods, j, leaves));
    lemma_first_said(methods, i, leaves);
    assert(first_to_say(methods, i + 1, leaves) is Some);
    lemma_first_stays_first(methods, i + 1, j, leaves);
    if first_to_say(methods, i, leaves) is Some {
        lemma_first_stays_first(methods, i, i + 1, leaves);
    }
}

/// The verdict on whether the tables, read together, say one thing.
pub open spec fn tables_verdict(metadata: PackageMetadata, reserved: Seq<ShapeNode>) -> Result<
    (),
    MetadataError,
> {
    crate::verdict::followed_by(
        crate::verdict::first_refusal(event_verdicts(metadata)),
        crate::verdict::followed_by(
            crate::verdict::first_refusal(type_verdicts(metadata.types, reserved)),
            crate::verdict::followed_by(
                crate::verdict::first_refusal(state_verdicts(metadata)),
                contents_verdict(metadata.methods.listed()),
            ),
        ),
    )
}

/// Whether the tables, read together, say one thing: every event has a
/// shape and one name, every reserved name means what the protocol says,
/// every slot sits in the package band holding something readable, and
/// every slot holds one thing.
pub fn check_table_agreement(metadata: &PackageMetadata, reserved: &Vec<ShapeNode>) -> (r: Result<
    (),
    MetadataError,
>)
    ensures
        r == tables_verdict(*metadata, reserved@),
{
    match check_events(metadata) {
        Ok(()) => {},
        Err(refusal) => {
            return Err(refusal);
        },
    }
    match check_types(metadata, reserved) {
        Ok(()) => {},
        Err(refusal) => {
            return Err(refusal);
        },
    }
    match check_state(metadata) {
        Ok(()) => {},
        Err(refusal) => {
            return Err(refusal);
        },
    }
    check_slot_contents(metadata)
}

/// The verdicts on the structure of each method, in order.
pub open spec fn method_verdicts(methods: Seq<(Name, MethodSignature)>) -> Seq<
    Result<(), MetadataError>,
> {
    Seq::new(
        methods.len(),
        |i: int|
            match crate::publish::bounds::bounds_verdict(methods[i].1) {
                Ok(_) => Ok(()),
                Err(source) => Err(MetadataError::Method { name: methods[i].0, source }),
            },
    )
}

/// The verdict on a package's metadata: the caps, every method's
/// structure, the tables' agreement, and the event bounds.
pub open spec fn metadata_verdict(metadata: PackageMetadata, reserved: Seq<ShapeNode>) -> Result<
    (),
    MetadataError,
> {
    crate::verdict::followed_by(
        caps_verdict(metadata),
        crate::verdict::followed_by(
            crate::verdict::first_refusal(method_verdicts(metadata.methods.listed())),
            crate::verdict::followed_by(
                tables_verdict(metadata, reserved),
                events_verdict(metadata),
            ),
        ),
    )
}

/// Every method's structure, under the signature caps.
fn check_methods(metadata: &PackageMetadata) -> (r: Result<(), MetadataError>)
    ensures
        r == crate::verdict::first_refusal(method_verdicts(metadata.methods.listed())),
{
    let ghost rows = metadata.methods.listed();
    let ghost verdicts = method_verdicts(rows);
    proof {
        crate::verdict::lemma_all(verdicts);
    }
    let mut i: usize = 0;
    while i < metadata.methods.len()
        invariant
            i <= rows.len(),
            rows == metadata.methods.listed(),
            verdicts == method_verdicts(rows),
            crate::verdict::first_refusal(verdicts.take(i as int)) is Ok,
        decreases rows.len() - i,
    {
        proof {
            crate::verdict::lemma_one_more(verdicts, i as int);
        }
        match check_signature_bounds(metadata.methods.value(i)) {
            Ok(()) => {},
            Err(source) => {
                return Err(
                    MetadataError::Method { name: metadata.methods.key(i).clone(), source },
                );
            },
        }
        i = i + 1;
    }
    proof {
        crate::verdict::lemma_all(verdicts);
    }
    Ok(())
}

/// Reject metadata past a bound the vocabulary fixes.
///
/// The depth walks mirror the evaluator's own recursion, so a signature
/// this accepts is one evaluation will not refuse on structure alone, and
/// the event table stays inside the index an emitted event can carry.
/// `reserved` is the protocol's own shapes, under the names it holds.
///
/// # Errors
///
/// [`MetadataError`]; verdicts are deterministic and identical on every
/// node.
pub fn check_metadata(metadata: &PackageMetadata, reserved: &Vec<ShapeNode>) -> (r: Result<
    (),
    MetadataError,
>)
    ensures
        r == metadata_verdict(*metadata, reserved@),
{
    match check_table_caps(metadata) {
        Ok(()) => {},
        Err(refusal) => {
            return Err(refusal);
        },
    }
    match check_methods(metadata) {
        Ok(()) => {},
        Err(refusal) => {
            return Err(refusal);
        },
    }
    match check_table_agreement(metadata, reserved) {
        Ok(()) => {},
        Err(refusal) => {
            return Err(refusal);
        },
    }
    check_event_bounds(metadata)
}

/// The verdict of the package-wide gate: the caps, and the tables'
/// agreement.
pub open spec fn package_verdict(metadata: PackageMetadata, reserved: Seq<ShapeNode>) -> Result<
    (),
    MetadataError,
> {
    crate::verdict::followed_by(caps_verdict(metadata), tables_verdict(metadata, reserved))
}

/// Metadata the package-wide gate has passed.
///
/// The witness [`CheckedMetadata::judge`] mints, and what the cache's own
/// store demands, so a record reaching admission without the tables having
/// been read together is unrepresentable.
#[derive(Debug)]
pub struct CheckedMetadata<'a> {
    metadata: PackageMetadata,
    reserved: &'a Vec<ShapeNode>,
}

impl<'a> CheckedMetadata<'a> {
    /// The metadata the witness is about.
    pub closed spec fn judged(self) -> PackageMetadata {
        self.metadata
    }

    /// The protocol's shapes it was judged beside.
    pub closed spec fn beside(self) -> Seq<ShapeNode> {
        self.reserved@
    }

    /// What makes it a witness: the metadata passed.
    #[verifier::type_invariant]
    spec fn passed(self) -> bool {
        package_verdict(self.metadata, self.reserved@) is Ok
    }

    /// Judge the package-wide gate and mint the witness.
    ///
    /// The tables' caps and their agreement. Each method's signature is
    /// the cache door's question beside this one.
    ///
    /// # Errors
    ///
    /// [`MetadataError`]; verdicts are deterministic and identical on
    /// every node.
    pub(crate) fn judge(metadata: PackageMetadata, reserved: &'a Vec<ShapeNode>) -> (r: Result<
        Self,
        MetadataError,
    >)
        ensures
            match r {
                Ok(checked) => package_verdict(metadata, reserved@) is Ok && checked.judged()
                    == metadata && checked.beside() == reserved@,
                Err(refusal) => package_verdict(metadata, reserved@) == Err::<(), MetadataError>(
                    refusal,
                ),
            },
    {
        match check_table_caps(&metadata) {
            Ok(()) => {},
            Err(refusal) => {
                return Err(refusal);
            },
        }
        match check_table_agreement(&metadata, reserved) {
            Ok(()) => {},
            Err(refusal) => {
                return Err(refusal);
            },
        }
        Ok(CheckedMetadata { metadata, reserved })
    }

    /// The metadata itself.
    pub fn metadata(&self) -> (r: &PackageMetadata)
        ensures
            *r == self.judged(),
            package_verdict(*r, self.beside()) is Ok,
    {
        proof {
            use_type_invariant(self);
        }
        &self.metadata
    }

    /// Take it back out.
    pub(crate) fn into_metadata(self) -> (r: PackageMetadata)
        ensures
            r == self.judged(),
            package_verdict(r, self.beside()) is Ok,
    {
        proof {
            use_type_invariant(&self);
        }
        self.metadata
    }
}

} // verus!
