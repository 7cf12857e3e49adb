//! Slots, keys and the values a declaration computes over.
use vstd::array::array_as_slice;
use vstd::prelude::*;

use crate::address::{Address, ResourceAddr};
use crate::term::{copy_bytes, copy_ids, same_bytes, same_ids, Term};

verus! {

/// How deep a value may nest: a scalar is one deep, and a tuple or a list
/// one deeper than the deepest thing in it.
pub const MAX_VALUE_DEPTH: usize = 8;

/// The most items one tuple or list may hold.
pub const MAX_VALUE_ITEMS: usize = 256;

/// The most bytes one byte string may hold.
pub const MAX_VALUE_BYTES: usize = 1024;

/// The most instances one edge may carry.
pub const MAX_IDS_PER_EDGE: usize = 64;

/// The first slot a package numbers its own state in. Below it are the
/// protocol's own cells.
pub const PACKAGE_SLOT_BASE: u16 = 16;

/// The first slot of the kernel's own band, which no signature reaches.
pub const KERNEL_SLOT_BASE: u16 = 0xFF00;

/// The number a cell or a collection goes by under its owner.
#[derive(Clone, Copy, Debug, PartialEq, Eq, Structural)]
pub struct SlotId(pub u16);

/// The `index`-th slot of the band a package numbers its own state in.
pub fn package_slot(index: u16) -> (r: SlotId)
    requires
        PACKAGE_SLOT_BASE + index < KERNEL_SLOT_BASE,
    ensures
        r.0 == PACKAGE_SLOT_BASE + index,
{
    SlotId(PACKAGE_SLOT_BASE + index)
}

/// The part of a leaf's key under its owner.
#[derive(Clone, Copy, Debug, PartialEq, Eq)]
pub struct LocalKey(pub [u8; 16]);

/// The identity a collection's entries hang under.
#[derive(Clone, Copy, Debug, PartialEq, Eq)]
pub struct CollectionId(pub [u8; 16]);

impl CollectionId {
    /// Whether two identities name one collection.
    pub fn same(&self, other: &CollectionId) -> (r: bool)
        ensures
            r == (*self == *other),
    {
        let r = same_bytes(array_as_slice(&self.0), array_as_slice(&other.0));
        proof {
            if self.0@ == other.0@ {
                assert(self.0 =~= other.0);
            }
        }
        r
    }
}

/// One leaf of committed state: the owner it sits under, and where.
#[derive(Clone, Copy, Debug, PartialEq, Eq)]
pub struct SubstateKey {
    /// The address the leaf sits under.
    pub owner: Address,
    /// Where it sits.
    pub local: LocalKey,
}

impl SubstateKey {
    /// The key as a term.
    pub open spec fn term(self) -> Term {
        Term::Node(5, seq![self.owner.term(), Term::Bytes(0, self.local.0@)])
    }

    /// Two keys are one key exactly where their terms are equal.
    pub proof fn lemma_term(self, other: SubstateKey)
        ensures
            (self.term() == other.term()) == (self == other),
    {
        self.owner.lemma_term(other.owner);
        Term::lemma_two(
            self.owner.term(),
            Term::Bytes(0, self.local.0@),
            other.owner.term(),
            Term::Bytes(0, other.local.0@),
        );
        if self.term() == other.term() {
            assert(self.local.0 =~= other.local.0);
        }
    }

    /// Whether two keys name one leaf.
    pub fn same(&self, other: &SubstateKey) -> (r: bool)
        ensures
            r == (*self == *other),
    {
        let r = self.owner == other.owner && same_bytes(
            array_as_slice(&self.local.0),
            array_as_slice(&other.local.0),
        );
        proof {
            if self.local.0@ == other.local.0@ {
                assert(self.local.0 =~= other.local.0);
            }
        }
        r
    }
}

/// What an edge carries beside its resource.
#[derive(Debug, PartialEq, Eq)]
pub enum EdgeContent {
    /// An amount, known only once its producer has run.
    Fungible,
    /// Named instances.
    NonFungible {
        /// The instances.
        ids: Vec<u64>,
    },
}

impl EdgeContent {
    /// The content as a term.
    pub open spec fn term(self) -> Term {
        match self {
            EdgeContent::Fungible => Term::Scalar(0, 0),
            EdgeContent::NonFungible { ids } => Term::Ids(1, ids@),
        }
    }

    /// Whether two edges carry the same content.
    pub fn same(&self, other: &EdgeContent) -> (r: bool)
        ensures
            r == (self.term() == other.term()),
    {
        match (self, other) {
            (EdgeContent::Fungible, EdgeContent::Fungible) => true,
            (
                EdgeContent::NonFungible { ids: left },
                EdgeContent::NonFungible { ids: right },
            ) => same_ids(left.as_slice(), right.as_slice()),
            _ => false,
        }
    }
}

impl Clone for EdgeContent {
    fn clone(&self) -> (r: EdgeContent)
        ensures
            r.term() == self.term(),
    {
        match self {
            EdgeContent::Fungible => EdgeContent::Fungible,
            EdgeContent::NonFungible { ids } => EdgeContent::NonFungible {
                ids: copy_ids(ids.as_slice()),
            },
        }
    }
}

/// A number of two hundred and fifty-six bits.
#[derive(Clone, Copy, Debug, PartialEq, Eq, Structural)]
pub struct U256 {
    /// The upper half.
    pub hi: u128,
    /// The lower half.
    pub lo: u128,
}

impl U256 {
    /// The number itself.
    pub open spec fn number(self) -> nat {
        self.hi as nat * 0x1_0000_0000_0000_0000_0000_0000_0000_0000nat + self.lo as nat
    }
}

/// A value a declaration's expressions compute over.
#[derive(Debug, PartialEq, Eq)]
pub enum Value {
    /// A 64-bit number.
    U64(u64),
    /// A 128-bit number.
    U128(u128),
    /// A 256-bit number.
    U256(U256),
    /// A byte string.
    Bytes(Vec<u8>),
    /// An address.
    Address(Address),
    /// The key of one leaf.
    Key(SubstateKey),
    /// A value edge.
    Bucket {
        /// The resource it carries.
        resource: ResourceAddr,
        /// What it carries besides.
        content: EdgeContent,
    },
    /// A tuple of values.
    Tuple(Vec<Value>),
    /// A list of values.
    List(Vec<Value>),
    /// A judgment.
    Bool(bool),
}

impl Value {
    /// The value as a term.
    pub open spec fn term(self) -> Term
        decreases self,
    {
        match self {
            Value::U64(number) => Term::Scalar(0, number as int),
            Value::U128(number) => Term::Scalar(1, number as int),
            Value::U256(number) => Term::Node(
                2,
                seq![Term::Scalar(0, number.hi as int), Term::Scalar(0, number.lo as int)],
            ),
            Value::Bytes(raw) => Term::Bytes(3, raw@),
            Value::Address(address) => address.term(),
            Value::Key(key) => key.term(),
            Value::Bucket { resource, content } => Term::Node(
                6,
                seq![resource.as_address().term(), content.term()],
            ),
            Value::Tuple(fields) => Term::Node(7, Value::terms(fields@)),
            Value::List(elements) => Term::Node(8, Value::terms(elements@)),
            Value::Bool(judgment) => Term::Scalar(9, if judgment { 1 } else { 0 }),
        }
    }

    /// The terms of a run of values, in order.
    pub open spec fn terms(values: Seq<Value>) -> Seq<Term>
        decreases values,
    {
        Seq::new(
            values.len(),
            |i: int|
                if 0 <= i < values.len() {
                    values[i].term()
                } else {
                    Term::nothing()
                },
        )
    }

    /// How deep a value nests: one for a scalar, and one more than the
    /// deepest thing inside for a tuple or a list.
    pub open spec fn depth(self) -> nat
        decreases self,
    {
        match self {
            Value::Tuple(fields) => 1 + Value::deepest(fields@),
            Value::List(elements) => 1 + Value::deepest(elements@),
            _ => 1,
        }
    }

    /// How deep the deepest of a run of values nests, nothing being no
    /// depth at all.
    pub open spec fn deepest(values: Seq<Value>) -> nat
        decreases values,
    {
        if values.len() == 0 {
            0
        } else {
            let rest = Value::deepest(values.drop_last());
            let here = values.last().depth();
            if here > rest {
                here
            } else {
                rest
            }
        }
    }

    /// Whether every tuple, list and byte string in a value is inside the
    /// bound its kind is held to.
    pub open spec fn within_width(self) -> bool
        decreases self,
    {
        match self {
            Value::Bytes(raw) => raw@.len() <= MAX_VALUE_BYTES,
            Value::Tuple(fields) => Value::all_within_width(fields@),
            Value::List(elements) => Value::all_within_width(elements@),
            _ => true,
        }
    }

    /// Whether a run of values is inside the bound on items, and every one
    /// of them inside its own.
    pub open spec fn all_within_width(values: Seq<Value>) -> bool
        decreases values,
    {
        &&& values.len() <= MAX_VALUE_ITEMS
        &&& forall|i: int| 0 <= i < values.len() ==> (#[trigger] values[i]).within_width()
    }
}

impl Value {
    /// Which form a value takes.
    spec fn form(self) -> int {
        match self {
            Value::U64(_) => 0,
            Value::U128(_) => 1,
            Value::U256(_) => 2,
            Value::Bytes(_) => 3,
            Value::Address(_) => 4,
            Value::Key(_) => 5,
            Value::Bucket { .. } => 6,
            Value::Tuple(_) => 7,
            Value::List(_) => 8,
            Value::Bool(_) => 9,
        }
    }

    /// The number a term of the vocabulary leads with.
    spec fn lead(term: Term) -> int {
        match term {
            Term::Scalar(tag, _) => tag,
            Term::Bytes(tag, _) => tag,
            Term::Ids(tag, _) => tag,
            Term::Text(tag, _) => tag,
            Term::Node(tag, _) => tag,
        }
    }

    /// A value's term leads with its form, so values of different forms
    /// are different terms.
    proof fn lemma_form(self)
        ensures
            Value::lead(self.term()) == self.form(),
    {
    }

    /// Whether two values are the same value.
    pub fn same(&self, other: &Value) -> (r: bool)
        ensures
            r == (self.term() == other.term()),
        decreases self,
    {
        proof {
            self.lemma_form();
            other.lemma_form();
        }
        match (self, other) {
            (Value::U64(left), Value::U64(right)) => *left == *right,
            (Value::U128(left), Value::U128(right)) => *left == *right,
            (Value::U256(left), Value::U256(right)) => {
                proof {
                    Term::lemma_two(
                        Term::Scalar(0, left.hi as int),
                        Term::Scalar(0, left.lo as int),
                        Term::Scalar(0, right.hi as int),
                        Term::Scalar(0, right.lo as int),
                    );
                }
                left.hi == right.hi && left.lo == right.lo
            },
            (Value::Bytes(left), Value::Bytes(right)) => same_bytes(
                left.as_slice(),
                right.as_slice(),
            ),
            (Value::Address(left), Value::Address(right)) => {
                proof {
                    left.lemma_term(*right);
                }
                *left == *right
            },
            (Value::Key(left), Value::Key(right)) => {
                proof {
                    left.lemma_term(*right);
                }
                left.same(right)
            },
            (
                Value::Bucket { resource: left, content: held },
                Value::Bucket { resource: right, content: carried },
            ) => {
                proof {
                    left.as_address().lemma_term(right.as_address());
                    Term::lemma_two(
                        left.as_address().term(),
                        held.term(),
                        right.as_address().term(),
                        carried.term(),
                    );
                }
                *left == *right && held.same(carried)
            },
            (Value::Tuple(left), Value::Tuple(right)) => Value::all_same(left, right),
            (Value::List(left), Value::List(right)) => Value::all_same(left, right),
            (Value::Bool(left), Value::Bool(right)) => *left == *right,
            _ => {
                assert(self.form() != other.form());
                false
            },
        }
    }

    /// Whether two runs of values are the same run.
    pub fn all_same(left: &Vec<Value>, right: &Vec<Value>) -> (r: bool)
        ensures
            r == (Value::terms(left@) == Value::terms(right@)),
        decreases left,
    {
        if left.len() != right.len() {
            assert(Value::terms(left@).len() != Value::terms(right@).len());
            return false;
        }
        let mut i: usize = 0;
        while i < left.len()
            invariant
                i <= left.len(),
                left.len() == right.len(),
                forall|j: int|
                    0 <= j < i ==> Value::terms(left@)[j] == Value::terms(right@)[j],
            decreases left.len() - i,
        {
            if !left[i].same(&right[i]) {
                assert(Value::terms(left@)[i as int] != Value::terms(right@)[i as int]);
                return false;
            }
            i = i + 1;
        }
        assert(Value::terms(left@) =~= Value::terms(right@));
        true
    }

    /// A copy of a run of values.
    pub fn copies(values: &Vec<Value>) -> (r: Vec<Value>)
        ensures
            Value::terms(r@) == Value::terms(values@),
        decreases values,
    {
        let mut r: Vec<Value> = Vec::new();
        let mut i: usize = 0;
        while i < values.len()
            invariant
                i <= values.len(),
                r.len() == i,
                forall|j: int| 0 <= j < i ==> (#[trigger] r@[j]).term() == values@[j].term(),
            decreases values.len() - i,
        {
            r.push(values[i].clone());
            i = i + 1;
        }
        assert(Value::terms(r@) =~= Value::terms(values@));
        r
    }

    /// Whether a value nests deeper than `limit`.
    pub fn nests_past(&self, limit: usize) -> (r: bool)
        ensures
            r == (self.depth() > limit),
        decreases self,
    {
        if limit == 0 {
            return true;
        }
        match self {
            Value::Tuple(items) => Value::any_nests_past(items, limit - 1),
            Value::List(items) => Value::any_nests_past(items, limit - 1),
            _ => false,
        }
    }

    /// Whether any of a run of values nests deeper than `limit`.
    fn any_nests_past(values: &Vec<Value>, limit: usize) -> (r: bool)
        ensures
            r == (Value::deepest(values@) > limit),
        decreases values,
    {
        let mut i: usize = 0;
        while i < values.len()
            invariant
                i <= values.len(),
                Value::deepest(values@.take(i as int)) <= limit,
            decreases values.len() - i,
        {
            let past = values[i].nests_past(limit);
            proof {
                let longer = values@.take(i as int + 1);
                assert(longer.drop_last() =~= values@.take(i as int));
                assert(longer.last() == values@[i as int]);
                if past {
                    Value::lemma_deepest_grows(values@, i as int + 1);
                }
            }
            if past {
                return true;
            }
            i = i + 1;
        }
        assert(values@.take(i as int) =~= values@);
        false
    }

    /// A longer run nests at least as deep as what it begins with.
    proof fn lemma_deepest_grows(values: Seq<Value>, taken: int)
        requires
            0 <= taken <= values.len(),
        ensures
            Value::deepest(values.take(taken)) <= Value::deepest(values),
        decreases values.len() - taken,
    {
        if taken < values.len() {
            Value::lemma_deepest_grows(values, taken + 1);
            assert(values.take(taken + 1).drop_last() =~= values.take(taken));
        } else {
            assert(values.take(taken) =~= values);
        }
    }

    /// Whether every tuple, list and byte string in a value is inside the
    /// bound its kind is held to.
    pub fn is_within_width(&self) -> (r: bool)
        ensures
            r == self.within_width(),
        decreases self,
    {
        match self {
            Value::Bytes(raw) => raw.len() <= MAX_VALUE_BYTES,
            Value::Tuple(items) => Value::are_within_width(items),
            Value::List(items) => Value::are_within_width(items),
            _ => true,
        }
    }

    /// Whether a run of values is inside the bound on items, and every one
    /// of them inside its own.
    fn are_within_width(values: &Vec<Value>) -> (r: bool)
        ensures
            r == Value::all_within_width(values@),
        decreases values,
    {
        if values.len() > MAX_VALUE_ITEMS {
            return false;
        }
        let mut i: usize = 0;
        while i < values.len()
            invariant
                i <= values.len(),
                values.len() <= MAX_VALUE_ITEMS,
                forall|j: int| 0 <= j < i ==> (#[trigger] values@[j]).within_width(),
            decreases values.len() - i,
        {
            if !values[i].is_within_width() {
                assert(!values@[i as int].within_width());
                return false;
            }
            i = i + 1;
        }
        true
    }
}

impl Clone for Value {
    fn clone(&self) -> (r: Value)
        ensures
            r.term() == self.term(),
        decreases self,
    {
        match self {
            Value::U64(number) => Value::U64(*number),
            Value::U128(number) => Value::U128(*number),
            Value::U256(number) => Value::U256(*number),
            Value::Bytes(raw) => Value::Bytes(copy_bytes(raw.as_slice())),
            Value::Address(address) => Value::Address(*address),
            Value::Key(key) => Value::Key(*key),
            Value::Bucket { resource, content } => Value::Bucket {
                resource: *resource,
                content: content.clone(),
            },
            Value::Tuple(fields) => Value::Tuple(Value::copies(fields)),
            Value::List(elements) => Value::List(Value::copies(elements)),
            Value::Bool(judgment) => Value::Bool(*judgment),
        }
    }
}

} // verus!
