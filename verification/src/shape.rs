//! The shapes a package declares its types in.
use vstd::prelude::*;

use crate::term::Term;
use crate::text::same_text;

verus! {

/// How a type's encoding is laid out.
#[derive(Debug, PartialEq, Eq)]
pub enum TypeShape {
    /// A truth value.
    Bool,
    /// An unsigned byte.
    U8,
    /// Two unsigned bytes.
    U16,
    /// Four unsigned bytes.
    U32,
    /// Eight unsigned bytes.
    U64,
    /// Sixteen unsigned bytes.
    U128,
    /// A signed byte.
    I8,
    /// Two signed bytes.
    I16,
    /// Four signed bytes.
    I32,
    /// Eight signed bytes.
    I64,
    /// Sixteen signed bytes.
    I128,
    /// Text.
    Text,
    /// Exactly this many bytes.
    ByteArray(u32),
    /// A run of one type.
    List(Box<TypeShape>),
    /// Distinct values of one type.
    Distinct(Box<TypeShape>),
    /// Values of one type under keys of another.
    Pairs {
        /// The keys.
        key: Box<TypeShape>,
        /// The values.
        value: Box<TypeShape>,
    },
    /// A value that may not be there.
    Maybe(Box<TypeShape>),
    /// Values side by side.
    Tuple(Vec<TypeShape>),
    /// Named values side by side.
    Struct(Vec<ShapeField>),
    /// One of several forms.
    Enum(Vec<ShapeVariant>),
    /// The type that goes by this name.
    Ref(String),
}

/// One named value of a struct.
#[derive(Debug, PartialEq, Eq)]
pub struct ShapeField {
    /// Its name.
    pub name: String,
    /// Its shape.
    pub shape: TypeShape,
}

/// One form of an enum.
#[derive(Debug, PartialEq, Eq)]
pub struct ShapeVariant {
    /// Its name.
    pub name: String,
    /// The number it is told by.
    pub discriminant: u32,
    /// What it carries.
    pub content: TypeShape,
}

impl TypeShape {
    /// The shape as a term.
    pub open spec fn term(self) -> Term
        decreases self,
    {
        match self {
            TypeShape::Bool => Term::Scalar(0, 0),
            TypeShape::U8 => Term::Scalar(0, 1),
            TypeShape::U16 => Term::Scalar(0, 2),
            TypeShape::U32 => Term::Scalar(0, 3),
            TypeShape::U64 => Term::Scalar(0, 4),
            TypeShape::U128 => Term::Scalar(0, 5),
            TypeShape::I8 => Term::Scalar(0, 6),
            TypeShape::I16 => Term::Scalar(0, 7),
            TypeShape::I32 => Term::Scalar(0, 8),
            TypeShape::I64 => Term::Scalar(0, 9),
            TypeShape::I128 => Term::Scalar(0, 10),
            TypeShape::Text => Term::Scalar(0, 11),
            TypeShape::ByteArray(width) => Term::Scalar(1, width as int),
            TypeShape::List(element) => Term::Node(2, seq![element.term()]),
            TypeShape::Distinct(element) => Term::Node(3, seq![element.term()]),
            TypeShape::Pairs { key, value } => Term::Node(4, seq![key.term(), value.term()]),
            TypeShape::Maybe(inner) => Term::Node(5, seq![inner.term()]),
            TypeShape::Tuple(fields) => Term::Node(6, TypeShape::terms(fields@)),
            TypeShape::Struct(fields) => Term::Node(7, ShapeField::terms(fields@)),
            TypeShape::Enum(variants) => Term::Node(8, ShapeVariant::terms(variants@)),
            TypeShape::Ref(name) => Term::Text(9, name@),
        }
    }

    /// The terms of a run of shapes, in order.
    pub open spec fn terms(shapes: Seq<TypeShape>) -> Seq<Term>
        decreases shapes,
    {
        Seq::new(
            shapes.len(),
            |i: int|
                if 0 <= i < shapes.len() {
                    shapes[i].term()
                } else {
                    Term::nothing()
                },
        )
    }

    /// Whether two shapes are the same shape.
    pub fn same(&self, other: &TypeShape) -> (r: bool)
        ensures
            r == (self.term() == other.term()),
        decreases self,
    {
        match (self, other) {
            (TypeShape::Bool, TypeShape::Bool) => true,
            (TypeShape::U8, TypeShape::U8) => true,
            (TypeShape::U16, TypeShape::U16) => true,
            (TypeShape::U32, TypeShape::U32) => true,
            (TypeShape::U64, TypeShape::U64) => true,
            (TypeShape::U128, TypeShape::U128) => true,
            (TypeShape::I8, TypeShape::I8) => true,
            (TypeShape::I16, TypeShape::I16) => true,
            (TypeShape::I32, TypeShape::I32) => true,
            (TypeShape::I64, TypeShape::I64) => true,
            (TypeShape::I128, TypeShape::I128) => true,
            (TypeShape::Text, TypeShape::Text) => true,
            (TypeShape::ByteArray(left), TypeShape::ByteArray(right)) => *left == *right,
            (TypeShape::List(left), TypeShape::List(right)) => {
                proof {
                    Term::lemma_one(left.term(), right.term());
                }
                left.same(right)
            },
            (TypeShape::Distinct(left), TypeShape::Distinct(right)) => {
                proof {
                    Term::lemma_one(left.term(), right.term());
                }
                left.same(right)
            },
            (
                TypeShape::Pairs { key, value },
                TypeShape::Pairs { key: by, value: held },
            ) => {
                proof {
                    Term::lemma_two(key.term(), value.term(), by.term(), held.term());
                }
                key.same(by) && value.same(held)
            },
            (TypeShape::Maybe(left), TypeShape::Maybe(right)) => {
                proof {
                    Term::lemma_one(left.term(), right.term());
                }
                left.same(right)
            },
            (TypeShape::Tuple(left), TypeShape::Tuple(right)) => TypeShape::all_same(left, right),
            (TypeShape::Struct(left), TypeShape::Struct(right)) => ShapeField::all_same(
                left,
                right,
            ),
            (TypeShape::Enum(left), TypeShape::Enum(right)) => ShapeVariant::all_same(left, right),
            (TypeShape::Ref(left), TypeShape::Ref(right)) => *left == *right,
            _ => false,
        }
    }

    /// Whether two runs of shapes are the same run.
    fn all_same(left: &Vec<TypeShape>, right: &Vec<TypeShape>) -> (r: bool)
        ensures
            r == (TypeShape::terms(left@) == TypeShape::terms(right@)),
        decreases left,
    {
        if left.len() != right.len() {
            assert(TypeShape::terms(left@).len() != TypeShape::terms(right@).len());
            return false;
        }
        let mut i: usize = 0;
        while i < left.len()
            invariant
                i <= left.len(),
                left.len() == right.len(),
                forall|j: int|
                    0 <= j < i ==> TypeShape::terms(left@)[j] == TypeShape::terms(right@)[j],
            decreases left.len() - i,
        {
            if !left[i].same(&right[i]) {
                assert(TypeShape::terms(left@)[i as int] != TypeShape::terms(right@)[i as int]);
                return false;
            }
            i = i + 1;
        }
        assert(TypeShape::terms(left@) =~= TypeShape::terms(right@));
        true
    }
}

impl ShapeField {
    /// The terms of a run of fields, in order.
    pub open spec fn terms(fields: Seq<ShapeField>) -> Seq<Term>
        decreases fields,
    {
        Seq::new(
            fields.len(),
            |i: int|
                if 0 <= i < fields.len() {
                    Term::Node(0, seq![Term::Text(0, fields[i].name@), fields[i].shape.term()])
                } else {
                    Term::nothing()
                },
        )
    }

    /// Whether two runs of fields are the same run.
    fn all_same(left: &Vec<ShapeField>, right: &Vec<ShapeField>) -> (r: bool)
        ensures
            r == (ShapeField::terms(left@) == ShapeField::terms(right@)),
        decreases left,
    {
        if left.len() != right.len() {
            assert(ShapeField::terms(left@).len() != ShapeField::terms(right@).len());
            return false;
        }
        let mut i: usize = 0;
        while i < left.len()
            invariant
                i <= left.len(),
                left.len() == right.len(),
                forall|j: int|
                    0 <= j < i ==> ShapeField::terms(left@)[j] == ShapeField::terms(right@)[j],
            decreases left.len() - i,
        {
            proof {
                Term::lemma_two(
                    Term::Text(0, left@[i as int].name@),
                    left@[i as int].shape.term(),
                    Term::Text(0, right@[i as int].name@),
                    right@[i as int].shape.term(),
                );
            }
            if left[i].name != right[i].name || !left[i].shape.same(&right[i].shape) {
                assert(ShapeField::terms(left@)[i as int] != ShapeField::terms(right@)[i as int]);
                return false;
            }
            i = i + 1;
        }
        assert(ShapeField::terms(left@) =~= ShapeField::terms(right@));
        true
    }
}

impl ShapeVariant {
    /// The terms of a run of variants, in order.
    pub open spec fn terms(variants: Seq<ShapeVariant>) -> Seq<Term>
        decreases variants,
    {
        Seq::new(
            variants.len(),
            |i: int|
                if 0 <= i < variants.len() {
                    Term::Node(
                        0,
                        seq![
                            Term::Text(0, variants[i].name@),
                            Term::Scalar(0, variants[i].discriminant as int),
                            variants[i].content.term(),
                        ],
                    )
                } else {
                    Term::nothing()
                },
        )
    }

    /// Whether two runs of variants are the same run.
    fn all_same(left: &Vec<ShapeVariant>, right: &Vec<ShapeVariant>) -> (r: bool)
        ensures
            r == (ShapeVariant::terms(left@) == ShapeVariant::terms(right@)),
        decreases left,
    {
        if left.len() != right.len() {
            assert(ShapeVariant::terms(left@).len() != ShapeVariant::terms(right@).len());
            return false;
        }
        let mut i: usize = 0;
        while i < left.len()
            invariant
                i <= left.len(),
                left.len() == right.len(),
                forall|j: int|
                    0 <= j < i ==> ShapeVariant::terms(left@)[j] == ShapeVariant::terms(right@)[j],
            decreases left.len() - i,
        {
            proof {
                Term::lemma_three(
                    Term::Text(0, left@[i as int].name@),
                    Term::Scalar(0, left@[i as int].discriminant as int),
                    left@[i as int].content.term(),
                    Term::Text(0, right@[i as int].name@),
                    Term::Scalar(0, right@[i as int].discriminant as int),
                    right@[i as int].content.term(),
                );
            }
            if left[i].name != right[i].name || left[i].discriminant != right[i].discriminant
                || !left[i].content.same(&right[i].content) {
                assert(ShapeVariant::terms(left@)[i as int]
                    != ShapeVariant::terms(right@)[i as int]);
                return false;
            }
            i = i + 1;
        }
        assert(ShapeVariant::terms(left@) =~= ShapeVariant::terms(right@));
        true
    }
}

/// A shape's place in a table.
#[derive(Clone, Copy, Debug, PartialEq, Eq, Structural)]
pub struct NodeId(pub u32);

/// One shape of a table: what it is called where it has a name, how it is
/// laid out, and the most bytes one encoding of it takes, as the codec
/// measures it.
#[derive(Debug, PartialEq, Eq)]
pub struct ShapeNode {
    /// What it is called, where it has a name.
    pub name: Option<String>,
    /// How it is laid out.
    pub shape: TypeShape,
    /// The most bytes one encoding of it takes.
    pub most: usize,
}

/// Every shape a package declares, each at the place it was put in.
#[derive(Debug, PartialEq, Eq)]
pub struct ShapeTable {
    nodes: Vec<ShapeNode>,
}

impl ShapeNode {
    /// Whether the shape goes by `name`.
    pub open spec fn called(self, name: Seq<char>) -> bool {
        self.name matches Some(held) && held@ == name
    }

    /// Whether the shape goes by `name`.
    pub fn goes_by(&self, name: &str) -> (r: bool)
        ensures
            r == self.called(name@),
    {
        match &self.name {
            Some(held) => same_text(held.as_str(), name),
            None => false,
        }
    }
}

/// The first of a run of shapes that goes by `name`.
pub open spec fn first_called(nodes: Seq<ShapeNode>, name: Seq<char>) -> Option<int>
    decreases nodes.len(),
{
    if nodes.len() == 0 {
        None
    } else {
        match first_called(nodes.drop_last(), name) {
            Some(found) => Some(found),
            None => if nodes.last().called(name) {
                Some(nodes.len() - 1)
            } else {
                None
            },
        }
    }
}

/// A name found early is found.
proof fn lemma_found_early(nodes: Seq<ShapeNode>, name: Seq<char>, taken: int)
    requires
        0 <= taken <= nodes.len(),
        first_called(nodes.take(taken), name) is Some,
    ensures
        first_called(nodes, name) == first_called(nodes.take(taken), name),
    decreases nodes.len() - taken,
{
    if taken < nodes.len() {
        assert(nodes.take(taken + 1).drop_last() =~= nodes.take(taken));
        lemma_found_early(nodes, name, taken + 1);
    } else {
        assert(nodes.take(taken) =~= nodes);
    }
}

/// The first of a run of shapes that goes by `name`.
pub fn find_called(nodes: &Vec<ShapeNode>, name: &str) -> (r: Option<usize>)
    ensures
        match r {
            Some(found) => first_called(nodes@, name@) == Some(found as int) && found
                < nodes@.len() && nodes@[found as int].called(name@),
            None => first_called(nodes@, name@) is None,
        },
{
    let mut i: usize = 0;
    assert(nodes@.take(0) =~= Seq::empty());
    while i < nodes.len()
        invariant
            i <= nodes.len(),
            first_called(nodes@.take(i as int), name@) is None,
        decreases nodes.len() - i,
    {
        proof {
            assert(nodes@.take(i as int + 1).drop_last() =~= nodes@.take(i as int));
            assert(nodes@.take(i as int + 1).last() == nodes@[i as int]);
        }
        if nodes[i].goes_by(name) {
            proof {
                lemma_found_early(nodes@, name@, i as int + 1);
            }
            return Some(i);
        }
        i = i + 1;
    }
    assert(nodes@.take(i as int) =~= nodes@);
    None
}

impl ShapeTable {
    /// The shapes, in the order they were put in.
    pub closed spec fn held(self) -> Seq<ShapeNode> {
        self.nodes@
    }

    /// The place of the first shape that goes by `name`, where one does.
    pub open spec fn place_of(self, name: Seq<char>) -> Option<int> {
        first_called(self.held(), name)
    }

    /// Every shape has a place.
    #[verifier::type_invariant]
    spec fn placed(self) -> bool {
        self.nodes@.len() <= u32::MAX + 1
    }

    /// A table of nothing.
    pub fn new() -> (r: Self)
        ensures
            r.held().len() == 0,
    {
        ShapeTable { nodes: Vec::new() }
    }

    /// Put a shape in, and answer the place it took. Nothing is put in
    /// where places have run out.
    pub fn push(&mut self, node: ShapeNode) -> (r: Option<NodeId>)
        ensures
            match r {
                Some(place) => place.0 == old(self).held().len() && final(self).held() == old(
                    self,
                ).held().push(node),
                None => old(self).held().len() > u32::MAX && final(self).held() == old(
                    self,
                ).held(),
            },
    {
        if self.nodes.len() > u32::MAX as usize {
            return None;
        }
        let place = NodeId(self.nodes.len() as u32);
        let mut nodes: Vec<ShapeNode> = Vec::new();
        std::mem::swap(&mut nodes, &mut self.nodes);
        nodes.push(node);
        self.nodes = nodes;
        Some(place)
    }

    /// How many shapes there are.
    pub fn len(&self) -> (r: usize)
        ensures
            r == self.held().len(),
            r <= u32::MAX + 1,
    {
        proof {
            use_type_invariant(self);
        }
        self.nodes.len()
    }

    /// The shape put in after `index` others.
    pub fn node(&self, index: usize) -> (r: &ShapeNode)
        requires
            index < self.held().len(),
        ensures
            *r == self.held()[index as int],
    {
        &self.nodes[index]
    }

    /// The shape at a place, where one stands there.
    pub fn get(&self, place: NodeId) -> (r: Option<&ShapeNode>)
        ensures
            match r {
                Some(node) => place.0 < self.held().len() && *node == self.held()[place.0 as int],
                None => place.0 >= self.held().len(),
            },
    {
        if (place.0 as usize) < self.nodes.len() {
            Some(&self.nodes[place.0 as usize])
        } else {
            None
        }
    }

    /// The place of the first shape that goes by `name`, where one does.
    pub fn named(&self, name: &str) -> (r: Option<NodeId>)
        ensures
            match r {
                Some(place) => self.place_of(name@) == Some(place.0 as int) && place.0
                    < self.held().len() && self.held()[place.0 as int].called(name@),
                None => self.place_of(name@) is None,
            },
    {
        proof {
            use_type_invariant(self);
        }
        match find_called(&self.nodes, name) {
            Some(found) => Some(NodeId(found as u32)),
            None => None,
        }
    }
}

} // verus!
