//! What each refusal of a package says about the package it refuses, and
//! the laws that tie the judging to it: a refusal is deserved, and what is
//! accepted deserves none.
use vstd::prelude::*;

use crate::dsl::{Clause, Expr, SlotRef, TargetExpr};
use crate::metadata::{LeafForm, Name, PackageMetadata, MAX_SLOT_WIDTH};
use crate::publish::package::{
    MetadataError, Numbered, ShapeFault, EVENT_FRAME_BYTES, MAX_CONFIG_FIELDS, MAX_ERROR_CODES,
    MAX_EVENT_BYTES_PER_TX, MAX_EVENT_PAYLOAD_BYTES, MAX_EVENT_TYPES,
};
use crate::shape::ShapeNode;
use crate::signature::MethodSignature;
use crate::table::TableKey;
use crate::types::{SlotId, KERNEL_SLOT_BASE, PACKAGE_SLOT_BASE};

verus! {

/// Whether a clause is an access under the method's own authority naming a
/// slot written down: as one leaf, or as a collection.
pub open spec fn names_slot(clause: Clause, slot: SlotId, leaf: bool) -> bool {
    &&& clause matches Clause::Effect { target, reach: None, .. }
    &&& match target {
        TargetExpr::Point(key) => leaf && (key matches Expr::ChildKey { slot: named, .. } && named
            == SlotRef::Fixed(slot)),
        TargetExpr::Entry { collection, .. } => !leaf && collection == SlotRef::Fixed(slot),
        TargetExpr::Range { collection, .. } => !leaf && collection == SlotRef::Fixed(slot),
    }
}

/// Whether a clause is the first of a run to name a slot so.
pub open spec fn first_names_slot(flat: Seq<Clause>, at: int, slot: SlotId, leaf: bool) -> bool {
    &&& 0 <= at < flat.len()
    &&& names_slot(flat[at], slot, leaf)
    &&& forall|before: int| 0 <= before < at ==> !names_slot(#[trigger] flat[before], slot, leaf)
}

/// Whether a clause says what it moves.
pub open spec fn is_denominated(clause: Clause) -> bool {
    clause matches Clause::Effect { denomination, .. } && denomination is Some
}

/// The leaves a slot numbers, in one of its two spaces.
pub open spec fn numbering(slot: SlotId, leaf: bool) -> Numbered {
    if leaf {
        Numbered::Cell(slot)
    } else {
        Numbered::Entries(slot)
    }
}

/// What a method answers about a slot is what its first access of the slot
/// says.
proof fn lemma_answer_is_the_first(flat: Seq<Clause>, slot: SlotId, leaf: bool, at: int)
    requires
        first_names_slot(flat, at, slot, leaf),
    ensures
        crate::publish::package::method_answer(flat, numbering(slot, leaf)) == Some(
            is_denominated(flat[at]),
        ),
    decreases flat.len(),
{
    let before = flat.drop_last();
    if at < before.len() {
        assert(before[at] == flat[at]);
        assert forall|k: int| 0 <= k < at implies !names_slot(#[trigger] before[k], slot, leaf) by {
            assert(before[k] == flat[k]);
        }
        lemma_answer_is_the_first(before, slot, leaf, at);
    } else {
        assert forall|k: int| 0 <= k < before.len() implies !names_slot(
            #[trigger] before[k],
            slot,
            leaf,
        ) by {
            assert(before[k] == flat[k]);
        }
        lemma_no_answer(before, slot, leaf);
        assert(flat.last() == flat[at]);
    }
}

/// A method none of whose accesses names a slot answers nothing about it.
proof fn lemma_no_answer(flat: Seq<Clause>, slot: SlotId, leaf: bool)
    requires
        forall|k: int| 0 <= k < flat.len() ==> !names_slot(#[trigger] flat[k], slot, leaf),
    ensures
        crate::publish::package::method_answer(flat, numbering(slot, leaf)) is None,
    decreases flat.len(),
{
    if flat.len() > 0 {
        let before = flat.drop_last();
        assert forall|k: int| 0 <= k < before.len() implies !names_slot(
            #[trigger] before[k],
            slot,
            leaf,
        ) by {
            assert(before[k] == flat[k]);
        }
        lemma_no_answer(before, slot, leaf);
        assert(flat.last() == flat[flat.len() - 1]);
        assert(!names_slot(flat[flat.len() - 1], slot, leaf));
    }
}

/// A method that answers about a slot has a first access of it.
proof fn lemma_answered_somewhere(flat: Seq<Clause>, slot: SlotId, leaf: bool) -> (at: int)
    requires
        crate::publish::package::method_answer(flat, numbering(slot, leaf)) is Some,
    ensures
        first_names_slot(flat, at, slot, leaf),
    decreases flat.len(),
{
    let before = flat.drop_last();
    if crate::publish::package::method_answer(before, numbering(slot, leaf)) is Some {
        let at = lemma_answered_somewhere(before, slot, leaf);
        assert forall|k: int| 0 <= k < at implies !names_slot(#[trigger] flat[k], slot, leaf) by {
            assert(before[k] == flat[k]);
        }
        assert(before[at] == flat[at]);
        at
    } else {
        let at = flat.len() - 1;
        assert forall|k: int| 0 <= k < at implies !names_slot(#[trigger] flat[k], slot, leaf) by {
            if names_slot(flat[k], slot, leaf) {
                assert(before[k] == flat[k]);
                lemma_some_answer(before, slot, leaf, k);
            }
        }
        at
    }
}

/// A method one of whose accesses names a slot answers about it.
proof fn lemma_some_answer(flat: Seq<Clause>, slot: SlotId, leaf: bool, at: int)
    requires
        0 <= at < flat.len(),
        names_slot(flat[at], slot, leaf),
    ensures
        crate::publish::package::method_answer(flat, numbering(slot, leaf)) is Some,
    decreases flat.len(),
{
    let before = flat.drop_last();
    if at < before.len() {
        assert(before[at] == flat[at]);
        lemma_some_answer(before, slot, leaf, at);
    } else {
        assert(flat.last() == flat[at]);
    }
}

/// In an accepted package, two methods agree about what the leaves a slot
/// numbers hold: where an access of each is the first of its method to
/// name one slot as a leaf, or the first of its method to name it as a
/// collection, whatever the modes, one says what it moves exactly where
/// the other does.
pub proof fn law_methods_agree_about_a_slot(
    metadata: PackageMetadata,
    reserved: Seq<ShapeNode>,
    i: int,
    j: int,
    slot: SlotId,
    leaf: bool,
    a: int,
    b: int,
)
    requires
        crate::publish::package::package_verdict(metadata, reserved) is Ok,
        0 <= i < metadata.methods.listed().len(),
        0 <= j < metadata.methods.listed().len(),
        first_names_slot(
            Clause::preorder(metadata.methods.listed()[i].1.effects@),
            a,
            slot,
            leaf,
        ),
        first_names_slot(
            Clause::preorder(metadata.methods.listed()[j].1.effects@),
            b,
            slot,
            leaf,
        ),
    ensures
        is_denominated(Clause::preorder(metadata.methods.listed()[i].1.effects@)[a])
            == is_denominated(Clause::preorder(metadata.methods.listed()[j].1.effects@)[b]),
{
    let methods = metadata.methods.listed();
    lemma_answer_is_the_first(Clause::preorder(methods[i].1.effects@), slot, leaf, a);
    lemma_answer_is_the_first(Clause::preorder(methods[j].1.effects@), slot, leaf, b);
    if i < j {
        crate::publish::package::law_slots_hold_one_thing(methods, i, j, numbering(slot, leaf));
    } else if j < i {
        crate::publish::package::law_slots_hold_one_thing(methods, j, i, numbering(slot, leaf));
    }
}

/// Whether a node is the first of a run to bear a name.
pub open spec fn first_bears(nodes: Seq<ShapeNode>, at: int, name: Seq<char>) -> bool {
    &&& 0 <= at < nodes.len()
    &&& nodes[at].name matches Some(borne) && borne@ == name
    &&& forall|before: int|
        0 <= before < at ==> !((#[trigger] nodes[before]).name matches Some(borne) && borne@
            == name)
}

/// Whether no node of a run bears a name.
pub open spec fn none_bears(nodes: Seq<ShapeNode>, name: Seq<char>) -> bool {
    forall|at: int|
        0 <= at < nodes.len() ==> !((#[trigger] nodes[at]).name matches Some(borne) && borne@
            == name)
}

/// Looking a name up finds the first node that bears it.
pub proof fn lemma_first_called(nodes: Seq<ShapeNode>, name: Seq<char>)
    ensures
        match crate::shape::first_called(nodes, name) {
            Some(at) => first_bears(nodes, at, name),
            None => none_bears(nodes, name),
        },
    decreases nodes.len(),
{
    if nodes.len() > 0 {
        let before = nodes.drop_last();
        lemma_first_called(before, name);
        match crate::shape::first_called(before, name) {
            Some(at) => {
                assert forall|k: int| 0 <= k < at implies !((#[trigger] nodes[k]).name matches Some(
                    borne,
                ) && borne@ == name) by {
                    assert(nodes[k] == before[k]);
                }
                assert(nodes[at] == before[at]);
            },
            None => {
                assert forall|k: int| 0 <= k < before.len() implies !((
                #[trigger] nodes[k]).name matches Some(borne) && borne@ == name) by {
                    assert(nodes[k] == before[k]);
                }
                assert(nodes.last() == nodes[nodes.len() - 1]);
            },
        }
    }
}

/// There is one first node to bear a name.
proof fn lemma_one_first_bearer(nodes: Seq<ShapeNode>, one: int, other: int, name: Seq<char>)
    requires
        first_bears(nodes, one, name),
        first_bears(nodes, other, name),
    ensures
        one == other,
{
}

/// The most bytes a method's events may come to: a frame for each, and the
/// most its shape takes.
pub open spec fn events_come_to(metadata: PackageMetadata, emits: Seq<u32>) -> nat
    decreases emits.len(),
{
    if emits.len() == 0 {
        0
    } else {
        let nodes = metadata.types.held();
        let name = metadata.events@[emits.last() as int]@;
        let most: nat = if none_bears(nodes, name) {
            0
        } else {
            nodes[choose|at: int| first_bears(nodes, at, name)].most as nat
        };
        events_come_to(metadata, emits.drop_last()) + EVENT_FRAME_BYTES as nat + most
    }
}

/// The bytes a method's events are bounded by are what they come to, as
/// far as a machine counts.
proof fn lemma_emitted_bytes(metadata: PackageMetadata, emits: Seq<u32>)
    ensures
        crate::publish::package::emitted_bytes(metadata, emits) == (if events_come_to(
            metadata,
            emits,
        ) > usize::MAX {
            usize::MAX as nat
        } else {
            events_come_to(metadata, emits)
        }),
    decreases emits.len(),
{
    if emits.len() > 0 {
        lemma_emitted_bytes(metadata, emits.drop_last());
        let nodes = metadata.types.held();
        let name = metadata.events@[emits.last() as int]@;
        lemma_first_called(nodes, name);
        match metadata.types.place_of(name) {
            Some(place) => {
                assert(first_bears(nodes, place, name));
                let at = choose|at: int| first_bears(nodes, at, name);
                lemma_one_first_bearer(nodes, place, at, name);
                assert(!none_bears(nodes, name));
            },
            None => {},
        }
    }
}

/// Whether the first access of a slot in one method says what it moves and
/// the first in another does not.
pub open spec fn of_two_minds(
    methods: Seq<(Name, MethodSignature)>,
    i: int,
    j: int,
    slot: SlotId,
    leaf: bool,
    a: int,
    b: int,
) -> bool {
    let one = Clause::preorder(methods[i].1.effects@);
    let other = Clause::preorder(methods[j].1.effects@);
    &&& 0 <= i < methods.len()
    &&& 0 <= j < methods.len()
    &&& first_names_slot(one, a, slot, leaf)
    &&& first_names_slot(other, b, slot, leaf)
    &&& is_denominated(one[a])
    &&& !is_denominated(other[b])
}

/// Whether one method's first access of a slot says what it moves and
/// another's does not, the two methods being called so.
pub open spec fn hold_two_things(
    methods: Seq<(Name, MethodSignature)>,
    slot: SlotId,
    denominating: Name,
    plain: Name,
) -> bool {
    exists|i: int, j: int, leaf: bool, a: int, b: int| #[trigger]
        of_two_minds(methods, i, j, slot, leaf, a, b) && methods[i].0 == denominating
            && methods[j].0 == plain
}

/// Whether a method emits an event whose shape takes at most so many
/// bytes.
pub open spec fn emits_at_most(
    metadata: PackageMetadata,
    emits: Seq<u32>,
    name: Name,
    bound: usize,
) -> bool {
    &&& exists|k: int|
        0 <= k < emits.len() && metadata.events@[#[trigger] emits[k] as int] == name
    &&& exists|at: int| #[trigger]
        first_bears(metadata.types.held(), at, name@) && metadata.types.held()[at].most == bound
}

/// Whether a type a package declares is laid out otherwise than the
/// protocol lays out its own of that name.
pub open spec fn differs_from_reserved(
    nodes: Seq<ShapeNode>,
    reserved: Seq<ShapeNode>,
    name: Name,
) -> bool {
    exists|i: int, at: int|
        0 <= i < nodes.len() && (#[trigger] nodes[i]).name == Some(name) && #[trigger] first_bears(
            reserved,
            at,
            name@,
        ) && nodes[i].shape.term() != reserved[at].shape.term()
}

/// What a refusal says of one method's events.
pub open spec fn events_at_fault(
    metadata: PackageMetadata,
    method: Name,
    signature: MethodSignature,
    error: MetadataError,
) -> bool {
    let emits = signature.emits@;
    let most = events_come_to(metadata, emits);
    match error {
        MetadataError::EmitsUnknownEvent { method: named, index } => named == method && exists|
            k: int,
        |
            0 <= k < emits.len() && #[trigger] emits[k] == index && (index
                >= metadata.events@.len() || exists|earlier: int|
                0 <= earlier < k && #[trigger] emits[earlier] < metadata.events@.len()
                    && metadata.events@[emits[earlier] as int]@
                    == metadata.events@[index as int]@),
        MetadataError::EventPayloadTooWide { name, bound } => bound > MAX_EVENT_PAYLOAD_BYTES
            && emits_at_most(metadata, emits, name, bound),
        MetadataError::EventBytesTooHigh(derived) => most > MAX_EVENT_BYTES_PER_TX && (derived
            == most || (derived == usize::MAX && most > usize::MAX)),
        MetadataError::EventBytesWithoutEvents => signature.event_bytes != most
            && metadata.events@.len() == 0,
        MetadataError::EventBytesDisagrees { method: named, declared, derived } => {
            &&& named == method
            &&& metadata.events@.len() > 0
            &&& signature.event_bytes == declared
            &&& declared != most
            &&& derived == most
        },
        _ => false,
    }
}

/// What a refusal says about the package it refuses.
pub open spec fn at_fault(
    metadata: PackageMetadata,
    reserved: Seq<ShapeNode>,
    error: MetadataError,
) -> bool {
    let methods = metadata.methods.listed();
    let nodes = metadata.types.held();
    let rows = metadata.state.listed();
    match error {
        MetadataError::EventTable(held) => metadata.events@.len() == held && held
            > MAX_EVENT_TYPES,
        MetadataError::ErrorTable(held) => metadata.errors@.len() == held && held
            > MAX_ERROR_CODES,
        MetadataError::ConfigTable(held) => metadata.config@.len() == held && held
            > MAX_CONFIG_FIELDS,
        MetadataError::EventWithoutShape { name } => exists|i: int|
            0 <= i < metadata.events@.len() && #[trigger] metadata.events@[i] == name && none_bears(
                nodes,
                name@,
            ),
        MetadataError::EventNamedTwice { name } => exists|i: int, j: int|
            0 <= i < j < metadata.events@.len() && #[trigger] metadata.events@[j] == name && (
            #[trigger] metadata.events@[i])@ == name@,
        MetadataError::TypeTooWide { name, bound } => exists|i: int|
            0 <= i < nodes.len() && (#[trigger] nodes[i]).name == Some(name) && nodes[i].most
                == bound && bound > MAX_SLOT_WIDTH,
        MetadataError::ReservedType { name } => differs_from_reserved(nodes, reserved, name),
        MetadataError::SlotOutsideBand { slot } => exists|i: int|
            0 <= i < rows.len() && (#[trigger] rows[i]).0 == slot && (slot.0 < PACKAGE_SLOT_BASE
                || slot.0 >= KERNEL_SLOT_BASE),
        MetadataError::SlotWidthTooWide { slot, width } => exists|i: int|
            0 <= i < rows.len() && (#[trigger] rows[i]).0 == slot && rows[i].1.width == width
                && width > MAX_SLOT_WIDTH,
        MetadataError::Slot { slot, source: ShapeFault::Unresolved(place) } => exists|i: int|
            0 <= i < rows.len() && (#[trigger] rows[i]).0 == slot && rows[i].1.element
                == LeafForm::Value(place) && place.0 >= nodes.len(),
        MetadataError::SlotWidthDisagrees { slot, width, derived } => exists|i: int|
            0 <= i < rows.len() && (#[trigger] rows[i]).0 == slot && rows[i].1.width == width && (
            rows[i].1.element matches LeafForm::Value(place) && place.0 < nodes.len() && derived
                == crate::verdict::position(nodes[place.0 as int].most as nat)) && derived
                != width,
        MetadataError::SlotHoldsTwoThings { slot, denominating, plain } => hold_two_things(
            methods,
            slot,
            denominating,
            plain,
        ),
        MetadataError::Method { name, source } => exists|i: int|
            0 <= i < methods.len() && (#[trigger] methods[i]).0 == name
                && crate::publish::bounds::bounds_verdict(methods[i].1) == Err::<
                (),
                crate::publish::bounds::SignatureBoundsError,
            >(source),
        MetadataError::EventBytesUndeclared => metadata.events@.len() > 0 && forall|i: int|
            0 <= i < methods.len() ==> (#[trigger] methods[i]).1.emits@.len() == 0,
        _ => exists|i: int|
            0 <= i < methods.len() && #[trigger] events_at_fault(
                metadata,
                methods[i].0,
                methods[i].1,
                error,
            ),
    }
}

/// Where methods disagree about a slot's leaves, there is a disagreement
/// met first.
proof fn lemma_a_first_disagreement(
    methods: Seq<(Name, MethodSignature)>,
    index: int,
    leaves: Numbered,
) -> (found: (int, Numbered))
    requires
        crate::publish::package::disagrees(methods, index, leaves),
    ensures
        crate::publish::package::first_disagreement(methods, found.0, found.1),
    decreases index, leaves.space(), leaves.at().0,
{
    if exists|other: int, others: Numbered|
        other < index && crate::publish::package::disagrees(methods, other, others) {
        let (other, others) = choose|other: int, others: Numbered|
            other < index && crate::publish::package::disagrees(methods, other, others);
        lemma_a_first_disagreement(methods, other, others)
    } else if exists|others: Numbered|
        crate::publish::package::disagrees(methods, index, others) && crate::table::before(
            others.ordinal(),
            leaves.ordinal(),
        ) {
        let others = choose|others: Numbered|
            crate::publish::package::disagrees(methods, index, others) && crate::table::before(
                others.ordinal(),
                leaves.ordinal(),
            );
        reveal_with_fuel(crate::table::before, 3);
        assert(others.ordinal().skip(1)[0] == others.at().0);
        assert(leaves.ordinal().skip(1)[0] == leaves.at().0);
        assert(others.ordinal().skip(1).skip(1).len() == 0);
        assert(leaves.ordinal().skip(1).skip(1).len() == 0);
        lemma_a_first_disagreement(methods, index, others)
    } else {
        (index, leaves)
    }
}

/// A disagreement is between two first accesses.
#[verifier::rlimit(60)]
proof fn lemma_contents_at_fault(metadata: PackageMetadata, reserved: Seq<ShapeNode>)
    ensures
        crate::publish::package::contents_verdict(metadata.methods.listed()) matches Err(error)
            ==> at_fault(metadata, reserved, error),
{
    let methods = metadata.methods.listed();
    if exists|index: int, leaves: Numbered|
        crate::publish::package::disagrees(methods, index, leaves) {
        let (some, about) = choose|index: int, leaves: Numbered|
            crate::publish::package::disagrees(methods, index, leaves);
        let found = lemma_a_first_disagreement(methods, some, about);
        let (index, leaves) = choose|index: int, leaves: Numbered|
            crate::publish::package::first_disagreement(methods, index, leaves);
        assert(crate::publish::package::first_disagreement(methods, index, leaves));
        crate::publish::package::lemma_first_said(methods, index, leaves);
        let first = crate::publish::package::first_to_say(methods, index, leaves)->Some_0;
        let leaf = leaves is Cell;
        let slot = leaves.at();
        assert(numbering(slot, leaf) == leaves);
        let one = Clause::preorder(methods[first].1.effects@);
        let two = Clause::preorder(methods[index].1.effects@);
        let a = lemma_answered_somewhere(one, slot, leaf);
        let b = lemma_answered_somewhere(two, slot, leaf);
        lemma_answer_is_the_first(one, slot, leaf, a);
        lemma_answer_is_the_first(two, slot, leaf, b);
        assert(first_names_slot(one, a, slot, leaf));
        assert(first_names_slot(two, b, slot, leaf));
        let error = crate::publish::package::two_things(methods, index, leaves);
        if is_denominated(one[a]) {
            assert(of_two_minds(methods, first, index, slot, leaf, a, b));
            assert(hold_two_things(methods, slot, methods[first].0, methods[index].0));
            assert(at_fault(metadata, reserved, error));
        } else {
            assert(of_two_minds(methods, index, first, slot, leaf, b, a));
            assert(hold_two_things(methods, slot, methods[index].0, methods[first].0));
            assert(at_fault(metadata, reserved, error));
        }
        assert(crate::publish::package::contents_verdict(methods) == Err::<(), MetadataError>(
            error,
        ));
    }
}

/// A refusal of a method's events says something so, and an acceptance
/// leaves none to be said.
#[verifier::rlimit(60)]
proof fn lemma_method_events(metadata: PackageMetadata, method: Name, signature: MethodSignature)
    ensures
        crate::publish::package::method_events_verdict(metadata, method, signature) matches Err(
            error,
        ) ==> (error is EventWithoutShape && (exists|i: int|
            0 <= i < metadata.events@.len() && #[trigger] metadata.events@[i]
                == error->EventWithoutShape_name) && none_bears(
            metadata.types.held(),
            error->EventWithoutShape_name@,
        )) || (events_at_fault(metadata, method, signature, error) && (error is EmitsUnknownEvent
            || error is EventPayloadTooWide || error is EventBytesTooHigh
            || error is EventBytesWithoutEvents || error is EventBytesDisagrees)),
        crate::publish::package::method_events_verdict(metadata, method, signature) is Ok
            ==> forall|error: MetadataError|
            !#[trigger] events_at_fault(metadata, method, signature, error),
{
    let emits = signature.emits@;
    let nodes = metadata.types.held();
    let events = metadata.events@;
    let known = crate::publish::package::emit_verdicts(events, method, emits);
    let payloads = crate::publish::package::payload_verdicts(metadata, emits);
    lemma_emitted_bytes(metadata, emits);
    if crate::verdict::first_refusal(known) is Err {
        let k = crate::publish::faults::lemma_refused_somewhere(known);
        assert(emits[k] == emits[k]);
        assert(events_at_fault(metadata, method, signature, known[k]->Err_0));
    } else {
        crate::verdict::lemma_accepted(known);
        assert forall|k: int| 0 <= k < emits.len() implies #[trigger] emits[k] < events.len() by {
            assert(known[k] is Ok);
        }
        if crate::verdict::first_refusal(payloads) is Err {
            let k = crate::publish::faults::lemma_refused_somewhere(payloads);
            let name = events[emits[k] as int];
            lemma_first_called(nodes, name@);
            if metadata.types.place_of(name@) is Some {
                let at = metadata.types.place_of(name@)->Some_0;
                assert(first_bears(nodes, at, name@));
                assert(events[emits[k] as int] == name);
                if payloads[k]->Err_0 is EventPayloadTooWide {
                    assert(emits_at_most(metadata, emits, name, nodes[at].most));
                }
                assert(events_at_fault(metadata, method, signature, payloads[k]->Err_0));
            }
        } else {
            crate::verdict::lemma_accepted(payloads);
            if crate::publish::package::method_events_verdict(metadata, method, signature) is Ok {
                assert forall|error: MetadataError| !#[trigger] events_at_fault(
                    metadata,
                    method,
                    signature,
                    error,
                ) by {
                    match error {
                        MetadataError::EmitsUnknownEvent { index, .. } => {
                            assert forall|k: int| 0 <= k < emits.len() && #[trigger] emits[k]
                                == index implies !(index >= events.len() || exists|earlier: int|
                                0 <= earlier < k && #[trigger] emits[earlier] < events.len()
                                    && events[emits[earlier] as int]@ == events[index as int]@) by {
                                assert(known[k] is Ok);
                            }
                        },
                        MetadataError::EventPayloadTooWide { name, bound } => {
                            if emits_at_most(metadata, emits, name, bound) {
                                let k = choose|k: int|
                                    0 <= k < emits.len() && events[#[trigger] emits[k] as int]
                                        == name;
                                let at = choose|at: int| #[trigger]
                                    first_bears(nodes, at, name@) && nodes[at].most == bound;
                                assert(payloads[k] is Ok);
                                lemma_first_called(nodes, name@);
                                lemma_one_first_bearer(
                                    nodes,
                                    at,
                                    metadata.types.place_of(name@)->Some_0,
                                    name@,
                                );
                            }
                        },
                        _ => {},
                    }
                }
            }
        }
    }
}

/// A refusal of a package's tables says something so.
#[verifier::rlimit(60)]
proof fn lemma_tables_refused(metadata: PackageMetadata, reserved: Seq<ShapeNode>)
    ensures
        crate::publish::package::tables_verdict(metadata, reserved) matches Err(error) ==> at_fault(
            metadata,
            reserved,
            error,
        ),
{
    let nodes = metadata.types.held();
    let rows = metadata.state.listed();
    let events = crate::publish::package::event_verdicts(metadata);
    let types = crate::publish::package::type_verdicts(metadata.types, reserved);
    let state = crate::publish::package::state_verdicts(metadata);
    if crate::verdict::first_refusal(events) is Err {
        let j = crate::publish::faults::lemma_refused_somewhere(events);
        lemma_first_called(nodes, metadata.events@[j]@);
        if metadata.types.place_of(metadata.events@[j]@) is Some {
            let i = choose|i: int|
                0 <= i < j && (#[trigger] metadata.events@[i])@ == metadata.events@[j]@;
            assert(metadata.events@[i]@ == metadata.events@[j]@);
        }
        assert(at_fault(metadata, reserved, events[j]->Err_0));
    } else if crate::verdict::first_refusal(types) is Err {
        let i = crate::publish::faults::lemma_refused_somewhere(types);
        assert(nodes[i].name is Some);
        let name = nodes[i].name->Some_0;
        lemma_first_called(reserved, name@);
        if crate::shape::first_called(reserved, name@) is Some {
            assert(first_bears(
                reserved,
                crate::shape::first_called(reserved, name@)->Some_0,
                name@,
            ));
        }
        if types[i]->Err_0 is ReservedType {
            assert(differs_from_reserved(nodes, reserved, name));
        }
        assert(at_fault(metadata, reserved, types[i]->Err_0));
    } else if crate::verdict::first_refusal(state) is Err {
        let i = crate::publish::faults::lemma_refused_somewhere(state);
        assert(rows[i].0 == rows[i].0);
        assert(at_fault(metadata, reserved, state[i]->Err_0));
    } else {
        lemma_contents_at_fault(metadata, reserved);
    }
}

/// Tables that are accepted leave nothing of them to refuse.
#[verifier::rlimit(60)]
proof fn lemma_tables_accepted(
    metadata: PackageMetadata,
    reserved: Seq<ShapeNode>,
    error: MetadataError,
)
    requires
        crate::publish::package::tables_verdict(metadata, reserved) is Ok,
        judged_of_tables(error),
    ensures
        !at_fault(metadata, reserved, error),
{
    let nodes = metadata.types.held();
    let rows = metadata.state.listed();
    let methods = metadata.methods.listed();
    let events = crate::publish::package::event_verdicts(metadata);
    let types = crate::publish::package::type_verdicts(metadata.types, reserved);
    let state = crate::publish::package::state_verdicts(metadata);
    crate::verdict::lemma_accepted(events);
    crate::verdict::lemma_accepted(types);
    crate::verdict::lemma_accepted(state);
    assert forall|i: int| 0 <= i < metadata.events@.len() implies !none_bears(
        nodes,
        (#[trigger] metadata.events@[i])@,
    ) by {
        assert(events[i] is Ok);
        lemma_first_called(nodes, metadata.events@[i]@);
    }
    assert forall|i: int, j: int| 0 <= i < j < metadata.events@.len() implies (
    #[trigger] metadata.events@[i])@ != (#[trigger] metadata.events@[j])@ by {
        assert(events[j] is Ok);
    }
    assert forall|i: int| 0 <= i < nodes.len() && (
    #[trigger] nodes[i]).name is Some implies nodes[i].most <= MAX_SLOT_WIDTH by {
        assert(types[i] is Ok);
    }
    assert forall|i: int| 0 <= i < rows.len() implies crate::publish::package::state_verdict(
        metadata.types,
        (#[trigger] rows[i]).0,
        rows[i].1,
    ) is Ok by {
        assert(state[i] is Ok);
    }
    match error {
        MetadataError::SlotHoldsTwoThings { slot, denominating, plain } => {
            assert forall|i: int, j: int, leaf: bool, a: int, b: int| !(
            #[trigger] of_two_minds(methods, i, j, slot, leaf, a, b)) by {
                if of_two_minds(methods, i, j, slot, leaf, a, b) {
                    lemma_contents_agree(methods, i, j, slot, leaf, a, b);
                }
            }
            assert(!hold_two_things(methods, slot, denominating, plain));
        },
        MetadataError::ReservedType { name } => {
            if differs_from_reserved(nodes, reserved, name) {
                let (i, at) = choose|i: int, at: int|
                    0 <= i < nodes.len() && (#[trigger] nodes[i]).name == Some(name)
                        && #[trigger] first_bears(reserved, at, name@) && nodes[i].shape.term()
                        != reserved[at].shape.term();
                assert(types[i] is Ok);
                lemma_first_called(reserved, name@);
                lemma_one_first_bearer(
                    reserved,
                    at,
                    crate::shape::first_called(reserved, name@)->Some_0,
                    name@,
                );
            }
        },
        _ => {},
    }
}

/// Where no method disagrees, no two first accesses do.
proof fn lemma_contents_agree(
    methods: Seq<(Name, MethodSignature)>,
    i: int,
    j: int,
    slot: SlotId,
    leaf: bool,
    a: int,
    b: int,
)
    requires
        crate::publish::package::contents_verdict(methods) is Ok,
    ensures
        !of_two_minds(methods, i, j, slot, leaf, a, b),
{
    if of_two_minds(methods, i, j, slot, leaf, a, b) {
        lemma_answer_is_the_first(Clause::preorder(methods[i].1.effects@), slot, leaf, a);
        lemma_answer_is_the_first(Clause::preorder(methods[j].1.effects@), slot, leaf, b);
        if i < j {
            crate::publish::package::law_slots_hold_one_thing(methods, i, j, numbering(slot, leaf));
        } else if j < i {
            crate::publish::package::law_slots_hold_one_thing(methods, j, i, numbering(slot, leaf));
        }
    }
}

/// Whether a refusal is of the tables, read together or against their
/// caps, and of no one method.
pub open spec fn judged_of_tables(error: MetadataError) -> bool {
    match error {
        MetadataError::Method { .. } => false,
        MetadataError::EmitsUnknownEvent { .. } => false,
        MetadataError::EventPayloadTooWide { .. } => false,
        MetadataError::EventBytesTooHigh(_) => false,
        MetadataError::EventBytesWithoutEvents => false,
        MetadataError::EventBytesDisagrees { .. } => false,
        MetadataError::EventBytesUndeclared => false,
        MetadataError::EventTable(_) => false,
        MetadataError::ErrorTable(_) => false,
        MetadataError::ConfigTable(_) => false,
        _ => true,
    }
}

/// A refusal of a package's metadata is deserved: what it says of the
/// package is so.
#[verifier::rlimit(60)]
pub proof fn law_refused_metadata_is_at_fault(metadata: PackageMetadata, reserved: Seq<ShapeNode>)
    ensures
        crate::publish::package::metadata_verdict(metadata, reserved) matches Err(error)
            ==> at_fault(metadata, reserved, error),
        crate::publish::package::package_verdict(metadata, reserved) matches Err(error)
            ==> at_fault(metadata, reserved, error),
{
    let methods = metadata.methods.listed();
    let bounded = crate::publish::package::method_verdicts(methods);
    let emitted = crate::publish::package::method_events_verdicts(metadata);
    assert(metadata.events.len() == metadata.events@.len());
    assert(metadata.errors.len() == metadata.errors@.len());
    assert(metadata.config.len() == metadata.config@.len());
    lemma_tables_refused(metadata, reserved);
    if crate::publish::package::caps_verdict(metadata) is Err {
    } else if crate::verdict::first_refusal(bounded) is Err {
        let i = crate::publish::faults::lemma_refused_somewhere(bounded);
        assert(methods[i].0 == methods[i].0);
    } else if crate::publish::package::tables_verdict(metadata, reserved) is Err {
    } else if crate::verdict::first_refusal(emitted) is Err {
        let i = crate::publish::faults::lemma_refused_somewhere(emitted);
        lemma_method_events(metadata, methods[i].0, methods[i].1);
    } else if crate::publish::package::events_verdict(metadata) is Err {
        assert(!crate::publish::package::emits_anything(metadata));
    }
}

/// Metadata that is accepted deserves no refusal: nothing any of them says
/// is so.
#[verifier::rlimit(60)]
pub proof fn law_accepted_metadata_is_at_no_fault(
    metadata: PackageMetadata,
    reserved: Seq<ShapeNode>,
    error: MetadataError,
)
    requires
        crate::publish::package::metadata_verdict(metadata, reserved) is Ok,
    ensures
        !at_fault(metadata, reserved, error),
{
    let methods = metadata.methods.listed();
    let bounded = crate::publish::package::method_verdicts(methods);
    let emitted = crate::publish::package::method_events_verdicts(metadata);
    crate::verdict::lemma_accepted(bounded);
    crate::verdict::lemma_accepted(emitted);
    if judged_of_tables(error) {
        lemma_tables_accepted(metadata, reserved, error);
    }
    assert forall|i: int| 0 <= i < methods.len() implies {
        &&& crate::publish::bounds::bounds_verdict((#[trigger] methods[i]).1) is Ok
        &&& !events_at_fault(metadata, methods[i].0, methods[i].1, error)
    } by {
        assert(bounded[i] is Ok);
        assert(emitted[i] is Ok);
        lemma_method_events(metadata, methods[i].0, methods[i].1);
    }
    if metadata.events@.len() > 0 {
        assert(crate::publish::package::emits_anything(metadata));
        let i = choose|i: int|
            0 <= i < metadata.methods.listed().len() && (
            #[trigger] metadata.methods.listed()[i]).1.emits@.len() > 0;
        assert(methods[i].1.emits@.len() > 0);
    }
}

/// A package let in deserves no refusal of its tables.
pub proof fn law_an_accepted_package_is_at_no_fault(
    metadata: PackageMetadata,
    reserved: Seq<ShapeNode>,
    error: MetadataError,
)
    requires
        crate::publish::package::package_verdict(metadata, reserved) is Ok,
        judged_of_tables(error) || error is EventTable || error is ErrorTable
            || error is ConfigTable,
    ensures
        !at_fault(metadata, reserved, error),
{
    if judged_of_tables(error) {
        lemma_tables_accepted(metadata, reserved, error);
    }
}

} // verus!
