//! Package identity, and everything routing reads about a package.
use vstd::prelude::*;

use crate::dsl::Expr;
use crate::hash::{Hash32, Hasher};
use crate::publish::seals;
use crate::shape::{find_called, NodeId, ShapeNode, ShapeTable};
use crate::signature::MethodSignature;
use crate::table::{Table, TableKey};
use crate::term::copy_bytes;
use crate::text::utf8_text;
use crate::types::SlotId;
use crate::vocabulary::{
    AUTH, COMMITTED_TX_SLOT, CROSSING_CLAIM_SLOT, CROSSING_DECLINE_SLOT, CROSSING_OBLIGATION_SLOT,
    ESCROW_RECORD_SLOT, HALT, NF_VAULT, NULLIFIER_SLOT, RESOURCE, VAULT,
};

verus! {

/// The most bytes one leaf may hold.
pub const MAX_SLOT_WIDTH: u32 = 4096;

/// An amount cell's width.
pub const AMOUNT_WIDTH: u32 = 16;

/// The governing cell's width: the record of two rules, each at the most
/// an argument may hold and behind its own length.
pub const AUTHORITY_WIDTH: u32 = 2052;

/// The width of a cell that is only a marker.
pub const MARKER_WIDTH: u32 = 8;

/// What either answer to a crossing holds: the marker, and the record it
/// answers for.
pub const CROSSING_ANSWER_WIDTH: u32 = 104;

/// What the cell owing a crossing's answer holds.
pub const CROSSING_OBLIGATION_WIDTH: u32 = 40;

/// What a crossing's own record holds.
pub const CROSSING_WIDTH: u32 = 96;

/// A name a package declares something under.
pub type Name = String;

/// A published package's identity: the hash of its artifact, which covers
/// the metadata section, so metadata is immutable with the package.
#[derive(Clone, Copy, Debug, Eq)]
pub struct PackageHash(pub Hash32);

impl PartialEq for PackageHash {
    fn eq(&self, other: &Self) -> (r: bool) {
        self.0 == other.0
    }
}

impl vstd::std_specs::cmp::PartialEqSpecImpl for PackageHash {
    open spec fn obeys_eq_spec() -> bool {
        true
    }

    open spec fn eq_spec(&self, other: &Self) -> bool {
        *self == *other
    }
}

/// What a package artifact is hashed under.
pub open spec fn package_domain() -> Seq<u8> {
    vstd::utf8::encode_utf8("hyperscale-vm/package"@)
}

/// The content address of a package artifact: the identity the metadata
/// cache keys on and instances bind to.
pub fn package_hash<H: Hasher>(hasher: &H, artifact: &[u8]) -> (r: PackageHash)
    ensures
        r.0 == hasher.digest(package_domain(), seq![artifact@]),
{
    let mut parts: Vec<Vec<u8>> = Vec::new();
    parts.push(copy_bytes(artifact));
    assert(crate::hash::part_bytes(parts@) =~= seq![artifact@]);
    PackageHash(hasher.hash("hyperscale-vm/package".as_bytes(), &parts))
}

impl TableKey for SlotId {
    open spec fn ordinal(self) -> Seq<int> {
        seq![self.0 as int]
    }

    fn precedes(&self, other: &Self) -> (r: bool) {
        proof {
            let left = self.ordinal();
            let right = other.ordinal();
            assert(left[0] == self.0 as int && right[0] == other.0 as int);
            assert(left.skip(1).len() == 0 && right.skip(1).len() == 0);
            assert(crate::table::before(left.skip(1), right.skip(1)) == false);
        }
        self.0 < other.0
    }

    fn coincides(&self, other: &Self) -> (r: bool) {
        proof {
            assert(self.ordinal()[0] == self.0 as int && other.ordinal()[0] == other.0 as int);
        }
        self.0 == other.0
    }
}

/// The shape of state a declared slot holds.
#[derive(Clone, Copy, Debug, PartialEq, Eq, Structural)]
pub enum SlotKind {
    /// One leaf under the slot.
    Cell,
    /// A family of leaves, each under material a body names.
    Keyed,
    /// An ordered collection: entries under an order key.
    Ordered,
    /// An unordered collection: entries under a hashed key.
    Unordered,
}

/// What one leaf of a slot holds.
#[derive(Clone, Copy, Debug, PartialEq, Eq, Structural)]
pub enum LeafForm {
    /// One encoding of a shape, at its place in the package's table.
    Value(NodeId),
    /// Bytes of its own.
    Bytes,
}

/// One declared state slot: what it is called, what shape of state it is,
/// and what its leaves hold.
#[derive(Debug, PartialEq, Eq)]
pub struct SlotShape {
    /// The field's name, as its author spelled it.
    pub name: Name,
    /// What shape of state the slot holds.
    pub kind: SlotKind,
    /// What one leaf holds.
    pub element: LeafForm,
    /// The most bytes one leaf under the slot may hold.
    pub width: u32,
    /// The resource a declared vault holds, where the field states one.
    pub denomination: Option<Expr>,
}

/// The width of every declared slot of one package, for evaluation to
/// stamp onto the targets a signature reaches.
#[derive(Debug, PartialEq, Eq)]
pub struct SlotWidths(Table<SlotId, u32>);

/// The width of a leaf in the protocol's own band, or of a cell the kernel
/// writes of its own accord, and the cap for a slot neither knows.
pub open spec fn protocol_cell_width(slot: u16) -> u32 {
    if slot == VAULT {
        AMOUNT_WIDTH
    } else if slot == NF_VAULT {
        0
    } else if slot == HALT {
        1
    } else if slot == RESOURCE {
        2
    } else if slot == AUTH {
        AUTHORITY_WIDTH
    } else if slot == NULLIFIER_SLOT || slot == COMMITTED_TX_SLOT {
        MARKER_WIDTH
    } else if slot == CROSSING_CLAIM_SLOT || slot == CROSSING_DECLINE_SLOT {
        CROSSING_ANSWER_WIDTH
    } else if slot == CROSSING_OBLIGATION_SLOT {
        CROSSING_OBLIGATION_WIDTH
    } else if slot == ESCROW_RECORD_SLOT {
        CROSSING_WIDTH
    } else {
        MAX_SLOT_WIDTH
    }
}

/// The width of a leaf in the protocol's own band, which every owner has
/// and no package declares.
///
/// An amount cell is sixteen bytes; an instance entry holds nothing, its
/// id being its order; a halt flag is a byte; a resource record is a kind
/// and its display digits; a stored authority is two rules. A nullifier and
/// a committed cell are markers, either answer to a crossing carries the
/// record it answers for beside one, and an escrow record is a crossing's.
/// Every other slot is bounded at the cap.
pub fn protocol_width(slot: u16) -> (r: u32)
    ensures
        r == protocol_cell_width(slot),
{
    if slot == VAULT {
        AMOUNT_WIDTH
    } else if slot == NF_VAULT {
        0
    } else if slot == HALT {
        1
    } else if slot == RESOURCE {
        2
    } else if slot == AUTH {
        AUTHORITY_WIDTH
    } else if slot == NULLIFIER_SLOT || slot == COMMITTED_TX_SLOT {
        MARKER_WIDTH
    } else if slot == CROSSING_CLAIM_SLOT || slot == CROSSING_DECLINE_SLOT {
        CROSSING_ANSWER_WIDTH
    } else if slot == CROSSING_OBLIGATION_SLOT {
        CROSSING_OBLIGATION_WIDTH
    } else if slot == ESCROW_RECORD_SLOT {
        CROSSING_WIDTH
    } else {
        MAX_SLOT_WIDTH
    }
}

impl SlotWidths {
    /// The width a package declared for a slot, where it declared one.
    pub closed spec fn declared(self, slot: SlotId) -> Option<u32> {
        self.0.under(slot.ordinal())
    }

    /// No slots known: every target bounded at what the protocol holds
    /// there, or at the cap.
    pub fn none() -> (r: Self)
        ensures
            forall|slot: SlotId| #[trigger] r.declared(slot) is None,
    {
        SlotWidths(Table::new())
    }

    /// The most bytes one leaf under `slot` may hold: what the package
    /// declared, or what the protocol's own band holds there, or the cap
    /// for a slot neither knows.
    pub fn width_of(&self, slot: SlotId) -> (r: u32)
        ensures
            r == (match self.declared(slot) {
                Some(width) => width,
                None => protocol_cell_width(slot.0),
            }),
    {
        match self.0.get(&slot) {
            Some(width) => *width,
            None => protocol_width(slot.0),
        }
    }
}

/// Everything routing reads about a published package.
#[derive(Debug, PartialEq, Eq)]
pub struct PackageMetadata {
    /// Effect signatures by method name.
    pub methods: Table<Name, MethodSignature>,
    /// The package's event names, in the index order a receipt event's
    /// type refers to.
    pub events: Vec<Name>,
    /// The package's error names, in the index order a declined
    /// invocation's code refers to.
    pub errors: Vec<Name>,
    /// Every type this package declares.
    pub types: ShapeTable,
    /// The instance configuration's field names, in the order the
    /// creation-fixed record holds them.
    pub config: Vec<Name>,
    /// The component's state, by the slot its leaves sit under.
    pub state: Table<SlotId, SlotShape>,
}

impl Default for PackageMetadata {
    fn default() -> (r: PackageMetadata)
        ensures
            r.methods.listed().len() == 0,
            r.events@.len() == 0,
            r.errors@.len() == 0,
            r.types.held().len() == 0,
            r.config@.len() == 0,
            r.state.listed().len() == 0,
    {
        PackageMetadata {
            methods: Table::new(),
            events: Vec::new(),
            errors: Vec::new(),
            types: ShapeTable::new(),
            config: Vec::new(),
            state: Table::new(),
        }
    }
}

/// The first of a run of named methods that seals.
pub open spec fn first_seal(methods: Seq<(Name, MethodSignature)>) -> Option<int>
    decreases methods.len(),
{
    if methods.len() == 0 {
        None
    } else {
        match first_seal(methods.drop_last()) {
            Some(found) => Some(found),
            None => if crate::publish::declaration::is_seal(methods.last().1) {
                Some(methods.len() - 1)
            } else {
                None
            },
        }
    }
}

/// A seal found early is the seal.
proof fn lemma_seal_early(methods: Seq<(Name, MethodSignature)>, taken: int)
    requires
        0 <= taken <= methods.len(),
        first_seal(methods.take(taken)) is Some,
    ensures
        first_seal(methods) == first_seal(methods.take(taken)),
    decreases methods.len() - taken,
{
    if taken < methods.len() {
        assert(methods.take(taken + 1).drop_last() =~= methods.take(taken));
        lemma_seal_early(methods, taken + 1);
    } else {
        assert(methods.take(taken) =~= methods);
    }
}

/// Where an event's payload is read from: the shape its type declares.
pub open spec fn event_reading(metadata: PackageMetadata, event_type: u32) -> Option<
    (Seq<char>, int),
> {
    if event_type >= metadata.events@.len() {
        None
    } else {
        let name = metadata.events@[event_type as int]@;
        match metadata.types.place_of(name) {
            Some(place) => Some((name, place)),
            None => None,
        }
    }
}

impl PackageMetadata {
    /// The width of every slot this package declares.
    pub fn slot_widths(&self) -> (r: SlotWidths)
        ensures
            forall|slot: SlotId|
                #[trigger] r.declared(slot) == (match self.state.under(slot.ordinal()) {
                    Some(shape) => Some(shape.width),
                    None => None,
                }),
    {
        let mut widths: Table<SlotId, u32> = Table::new();
        let count = self.state.len();
        let ghost rows = self.state.listed();
        let mut i: usize = 0;
        proof {
            assert(rows.take(0) =~= Seq::empty());
        }
        while i < count
            invariant
                i <= count,
                rows == self.state.listed(),
                count == rows.len(),
                crate::table::ordered(rows),
                forall|slot: SlotId|
                    #[trigger] widths.under(slot.ordinal()) == width_in(rows.take(i as int), slot),
            decreases count - i,
        {
            let slot = *self.state.key(i);
            let ghost before = widths;
            widths.insert(slot, self.state.value(i).width);
            proof {
                lemma_width_in(rows, i as int);
                assert forall|other: SlotId| #[trigger] widths.under(other.ordinal()) == width_in(
                    rows.take(i as int + 1),
                    other,
                ) by {
                    if other == slot {
                    } else {
                        assert(other.ordinal()[0] == other.0 as int);
                        assert(slot.ordinal()[0] == slot.0 as int);
                        assert(before.under(other.ordinal()) == width_in(
                            rows.take(i as int),
                            other,
                        ));
                    }
                }
            }
            i = i + 1;
        }
        proof {
            assert(rows.take(i as int) =~= rows);
            assert forall|slot: SlotId| #[trigger] widths.under(slot.ordinal()) == (
            match self.state.under(slot.ordinal()) {
                Some(shape) => Some(shape.width),
                None => None,
            }) by {
                assert(widths.under(slot.ordinal()) == width_in(rows, slot));
            }
        }
        SlotWidths(widths)
    }

    /// The name and the shape an event's payload is read against: an index
    /// becomes a name, and the name becomes a shape. `None` where the
    /// index names no declared type.
    ///
    /// This must be the metadata of the package the emitter answers to: an
    /// index is a number in that package's own table.
    pub fn read_event(&self, event_type: u32) -> (r: Option<(&Name, NodeId)>)
        ensures
            match r {
                Some((name, place)) => event_reading(*self, event_type) == Some(
                    (name@, place.0 as int),
                ),
                None => event_reading(*self, event_type) is None,
            },
    {
        if event_type as usize >= self.events.len() {
            return None;
        }
        let name = &self.events[event_type as usize];
        match self.types.named(name.as_str()) {
            Some(place) => Some((name, place)),
            None => None,
        }
    }

    /// What a state leaf is read against: the form its slot declares, and
    /// nothing for an empty leaf, which is the absence every element reads
    /// as its own zero. `None` where the slot is not one this package
    /// declares.
    pub fn read_leaf(&self, slot: SlotId, leaf: &[u8]) -> (r: Option<Option<LeafForm>>)
        ensures
            r == (match self.state.under(slot.ordinal()) {
                Some(shape) => Some(
                    if leaf@.len() == 0 {
                        None
                    } else {
                        Some(shape.element)
                    },
                ),
                None => None,
            }),
    {
        match self.state.get(&slot) {
            Some(shape) => {
                if leaf.len() == 0 {
                    Some(None)
                } else {
                    Some(Some(shape.element))
                }
            },
            None => None,
        }
    }

    /// What an instance's data cell is read against: the shape declared
    /// under the name its mark spells, and nothing for an empty cell.
    /// `None` where the mark is no text, or names no declared type.
    pub fn read_instance(&self, mark: &[u8], cell: &[u8]) -> (r: Option<Option<NodeId>>)
        ensures
            r == (if !vstd::utf8::valid_utf8(mark@) {
                None::<Option<NodeId>>
            } else {
                match self.types.place_of(vstd::utf8::decode_utf8(mark@)) {
                    Some(place) => Some(
                        if cell@.len() == 0 {
                            None
                        } else {
                            Some(NodeId(place as u32))
                        },
                    ),
                    None => None,
                }
            }),
    {
        match utf8_text(mark) {
            Some(name) => match self.types.named(name.as_str()) {
                Some(place) => {
                    if cell.len() == 0 {
                        Some(None)
                    } else {
                        Some(Some(place))
                    }
                },
                None => None,
            },
            None => None,
        }
    }

    /// The method that makes a component of this package actual, and the
    /// name it publishes under.
    ///
    /// Found by what it declares rather than by what it is called: the
    /// seal is the method writing the component's own configuration leaf.
    /// `None` for a package serving principals, which has no creation to
    /// finish.
    pub fn seal(&self) -> (r: Option<(&Name, &MethodSignature)>)
        ensures
            match r {
                Some((name, signature)) => first_seal(self.methods.listed()) matches Some(at)
                    && 0 <= at < self.methods.listed().len() && self.methods.listed()[at] == (
                    *name,
                    *signature,
                ),
                None => first_seal(self.methods.listed()) is None,
            },
    {
        let ghost rows = self.methods.listed();
        let mut i: usize = 0;
        assert(rows.take(0) =~= Seq::empty());
        while i < self.methods.len()
            invariant
                i <= rows.len(),
                rows == self.methods.listed(),
                first_seal(rows.take(i as int)) is None,
            decreases rows.len() - i,
        {
            proof {
                assert(rows.take(i as int + 1).drop_last() =~= rows.take(i as int));
                assert(rows.take(i as int + 1).last() == rows[i as int]);
            }
            if seals(self.methods.value(i)) {
                proof {
                    lemma_seal_early(rows, i as int + 1);
                }
                return Some((self.methods.key(i), self.methods.value(i)));
            }
            i = i + 1;
        }
        assert(rows.take(i as int) =~= rows);
        None
    }
}

/// The width a run of declared slots gives a slot.
spec fn width_in(rows: Seq<(SlotId, SlotShape)>, slot: SlotId) -> Option<u32> {
    match crate::table::value_under(rows, slot.ordinal()) {
        Some(shape) => Some(shape.width),
        None => None,
    }
}

/// One more declared slot gives its own width, and leaves every other
/// slot's as it was.
proof fn lemma_width_in(rows: Seq<(SlotId, SlotShape)>, taken: int)
    requires
        crate::table::ordered(rows),
        0 <= taken < rows.len(),
    ensures
        width_in(rows.take(taken + 1), rows[taken].0) == Some(rows[taken].1.width),
        forall|other: SlotId|
            other != rows[taken].0 ==> #[trigger] width_in(rows.take(taken + 1), other) == width_in(
                rows.take(taken),
                other,
            ),
{
    let longer = rows.take(taken + 1);
    let shorter = rows.take(taken);
    assert forall|i: int, j: int| 0 <= i < j < longer.len() implies crate::table::before(
        (#[trigger] longer[i]).0.ordinal(),
        (#[trigger] longer[j]).0.ordinal(),
    ) by {
        assert(crate::table::before(rows[i].0.ordinal(), rows[j].0.ordinal()));
    }
    crate::table::lemma_ordered_value(longer, taken);
    assert forall|other: SlotId| other != rows[taken].0 implies #[trigger] width_in(
        longer,
        other,
    ) == width_in(shorter, other) by {
        assert(other.ordinal()[0] == other.0 as int);
        assert(rows[taken].0.ordinal()[0] == rows[taken].0.0 as int);
        assert(longer =~= shorter.push(rows[taken]));
        crate::table::lemma_value_under_push(shorter, rows[taken], other.ordinal());
    }
}

/// The named shape the protocol pins `name` to, for a name it pins at all.
///
/// What makes a reserved name a fact rather than a convention: a package
/// binding one to anything else is refused at the door, so a consumer that
/// finds the name in a package's types has found the protocol's shape.
pub fn reserved_shape<'a>(reserved: &'a Vec<ShapeNode>, name: &str) -> (r: Option<&'a ShapeNode>)
    ensures
        match r {
            Some(node) => crate::shape::first_called(reserved@, name@) matches Some(at) && 0 <= at
                < reserved@.len() && reserved@[at] == *node && node.called(name@),
            None => crate::shape::first_called(reserved@, name@) is None,
        },
{
    match find_called(reserved, name) {
        Some(at) => Some(&reserved[at]),
        None => None,
    }
}

} // verus!
