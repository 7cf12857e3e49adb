//! The declaration language: expressions, targets, modes and clauses.
use vstd::prelude::*;

use crate::effect::{Moves, Presence};
use crate::resource::{GrantedBehaviour, GrantsExpr, ResourceKind};
use crate::rule::Rule;
use crate::term::Term;
use crate::types::{SlotId, Value};

verus! {

/// How deep an expression may nest beneath the one it is written in.
pub const MAX_EXPR_DEPTH: usize = 16;

/// How deep `for-each` clauses may nest.
pub const MAX_CLAUSE_DEPTH: usize = 4;

/// The most effects one signature may declare.
pub const MAX_EFFECTS_PER_SIGNATURE: usize = 4096;

/// An expression over a call's inputs, evaluated without reading state.
#[derive(Debug, PartialEq, Eq)]
#[allow(inconsistent_fields)]
pub enum Expr {
    /// A value written down.
    Literal(Value),
    /// An argument, by position.
    Arg(u32),
    /// A configuration field, by position.
    Config(u32),
    /// The element a `for-each` binds, counting outward from the innermost.
    Binding(u32),
    /// The declaring instance's own address.
    SelfAddr,
    /// The declaring instance's own record.
    SelfRecord,
    /// A field of a tuple.
    Field(Box<Expr>, u32),
    /// The resource an edge carries.
    ResourceOf(Box<Expr>),
    /// The instances an edge carries.
    IdsOf(Box<Expr>),
    /// How many elements a list holds.
    Len(Box<Expr>),
    /// The one element of a list of one.
    Only(Box<Expr>),
    /// A list built of these.
    List(Vec<Expr>),
    /// A tuple built of these.
    Tuple(Vec<Expr>),
    /// An edge carrying these instances of a resource.
    NfBucket {
        /// The resource.
        resource: Box<Expr>,
        /// The instances.
        ids: Box<Expr>,
    },
    /// What a map holds under a key.
    Lookup {
        /// The map.
        map: Box<Expr>,
        /// The key.
        key: Box<Expr>,
    },
    /// The address of a resource the declaring instance issues.
    SelfResource {
        /// What the resource is.
        kind: ResourceKind,
        /// What names it.
        material: Vec<Expr>,
        /// The entries its address folds.
        grants: GrantsExpr,
    },
    /// The key of a leaf under an owner, at a slot.
    ChildKey {
        /// The owner.
        owner: Box<Expr>,
        /// The slot.
        slot: SlotRef,
        /// What tells it from the slot's other leaves.
        material: Vec<Expr>,
    },
    /// An identifier no other call has.
    FreshId {
        /// Which of the call's fresh identifiers.
        slot: u32,
    },
    /// A key no other call has.
    FreshKey {
        /// Which of the call's fresh keys.
        slot: u32,
    },
    /// Two halves of an order key, put together.
    Pack {
        /// The upper half.
        hi: Box<Expr>,
        /// The lower half.
        lo: Box<Expr>,
    },
    /// The order key an unordered collection files under.
    OrderKey {
        /// The collection's owner.
        owner: Box<Expr>,
        /// The collection's slot.
        slot: SlotId,
        /// What the entry is filed by.
        material: Vec<Expr>,
    },
    /// A sum.
    Add(Box<Expr>, Box<Expr>),
    /// The other judgment.
    Not(Box<Expr>),
    /// Whether both hold.
    And(Box<Expr>, Box<Expr>),
    /// Whether either holds.
    Or(Box<Expr>, Box<Expr>),
    /// Whether two values are equal.
    Eq(Box<Expr>, Box<Expr>),
    /// Whether one number is below another.
    Lt(Box<Expr>, Box<Expr>),
    /// Whether a map holds anything under a key.
    Contains {
        /// The map.
        map: Box<Expr>,
        /// The key.
        key: Box<Expr>,
    },
    /// One of two values, by a judgment.
    If {
        /// The judgment.
        cond: Box<Expr>,
        /// The value where it holds.
        chosen: Box<Expr>,
        /// The value where it does not.
        otherwise: Box<Expr>,
    },
}

/// How a declaration names a slot.
#[derive(Debug, PartialEq, Eq)]
pub enum SlotRef {
    /// Written down.
    Fixed(SlotId),
    /// Named by an argument, which only a reach may do.
    Reached(Box<Expr>),
}

/// What an access reaches.
#[derive(Debug, PartialEq, Eq)]
pub enum TargetExpr {
    /// One leaf, by the expression naming its key.
    Point(Expr),
    /// One entry of a collection.
    Entry {
        /// The collection's owner.
        owner: Expr,
        /// The collection's slot.
        collection: SlotRef,
        /// What tells the collection from the slot's others.
        material: Vec<Expr>,
        /// Where the entry sits in it.
        order: Expr,
    },
    /// An interval of a collection.
    Range {
        /// The collection's owner.
        owner: Expr,
        /// The collection's slot.
        collection: SlotRef,
        /// What tells the collection from the slot's others.
        material: Vec<Expr>,
        /// The first order key.
        lo: Expr,
        /// The last order key.
        hi: Expr,
        /// The most entries it may touch.
        cap: Expr,
    },
}

/// How an access reaches its target.
#[derive(Debug, PartialEq, Eq)]
pub enum ModeExpr {
    /// Reading it.
    Read,
    /// Moving value through it, in any order with other movements.
    Delta {
        /// Which way.
        moves: Moves,
    },
    /// Setting an amount of it aside.
    Reserve(Expr),
    /// Rewriting it.
    Write {
        /// Which way value moves under the rewrite.
        moves: Moves,
    },
}

/// What a declared rule asks at one leaf.
#[derive(Debug, PartialEq, Eq)]
pub enum RuleLeaf {
    /// That the call presents a claim.
    Claim(Expr),
    /// That the rule stored at a cell holds.
    Stored {
        /// The cell.
        cell: Expr,
    },
    /// That a leaf is there, or is not.
    Presence {
        /// The leaf.
        target: Box<TargetExpr>,
        /// Which way.
        expect: Presence,
    },
}

/// A rule as a declaration writes it.
pub type RuleExpr = Rule<RuleLeaf>;

/// One clause of a method's declaration.
#[derive(Debug, PartialEq, Eq)]
pub enum Clause {
    /// An access.
    Effect {
        /// The judgment it is declared under.
        guard: Option<Box<Expr>>,
        /// What it reaches.
        target: TargetExpr,
        /// How.
        mode: ModeExpr,
        /// The resource it moves, where it holds value.
        denomination: Option<Box<Expr>>,
        /// The behaviour that lets it reach a prefix not its own.
        reach: Option<GrantedBehaviour>,
    },
    /// Clauses declared once for each element of a list.
    ForEach {
        /// The judgment it is declared under.
        guard: Option<Box<Expr>>,
        /// The list.
        list: Expr,
        /// The clauses.
        body: Vec<Clause>,
    },
    /// A condition.
    Requires {
        /// The judgment it is declared under.
        guard: Option<Box<Expr>>,
        /// What must hold.
        rule: RuleExpr,
    },
    /// A claim the call mints for whoever comes after it.
    Mints {
        /// The judgment it is declared under.
        guard: Option<Box<Expr>>,
        /// The claim.
        claim: Expr,
    },
}

impl SlotRef {
    /// The slot, where it is written down.
    pub open spec fn constant(self) -> Option<SlotId> {
        match self {
            SlotRef::Fixed(slot) => Some(slot),
            SlotRef::Reached(_) => None,
        }
    }

    /// The expression naming the slot, where one does, as a run of none or
    /// one.
    pub open spec fn naming(self) -> Seq<Expr> {
        match self {
            SlotRef::Fixed(_) => Seq::empty(),
            SlotRef::Reached(expr) => seq![*expr],
        }
    }

    /// What the reference carries beside the expression naming it.
    pub open spec fn head(self) -> Term {
        match self {
            SlotRef::Fixed(slot) => Term::Scalar(0, slot.0 as int),
            SlotRef::Reached(_) => Term::Scalar(1, 0),
        }
    }

    /// The slot, where it is written down.
    pub fn fixed(&self) -> (r: Option<SlotId>)
        ensures
            r == self.constant(),
    {
        match self {
            SlotRef::Fixed(slot) => Some(*slot),
            SlotRef::Reached(_) => None,
        }
    }
}

impl Expr {
    /// Which form an expression takes.
    pub open spec fn form(self) -> int {
        match self {
            Expr::Literal(_) => 0,
            Expr::Arg(_) => 1,
            Expr::Config(_) => 2,
            Expr::Binding(_) => 3,
            Expr::SelfAddr => 4,
            Expr::SelfRecord => 5,
            Expr::Field(_, _) => 6,
            Expr::ResourceOf(_) => 7,
            Expr::IdsOf(_) => 8,
            Expr::Len(_) => 9,
            Expr::Only(_) => 10,
            Expr::List(_) => 11,
            Expr::Tuple(_) => 12,
            Expr::NfBucket { .. } => 13,
            Expr::Lookup { .. } => 14,
            Expr::SelfResource { .. } => 15,
            Expr::ChildKey { .. } => 16,
            Expr::FreshId { .. } => 17,
            Expr::FreshKey { .. } => 18,
            Expr::Pack { .. } => 19,
            Expr::OrderKey { .. } => 20,
            Expr::Add(_, _) => 21,
            Expr::Not(_) => 22,
            Expr::And(_, _) => 23,
            Expr::Or(_, _) => 24,
            Expr::Eq(_, _) => 25,
            Expr::Lt(_, _) => 26,
            Expr::Contains { .. } => 27,
            Expr::If { .. } => 28,
        }
    }

    /// What an expression carries beside the expressions in it.
    #[verifier::opaque]
    pub open spec fn head(self) -> Term {
        match self {
            Expr::Literal(value) => value.term(),
            Expr::Arg(position) => Term::Scalar(0, position as int),
            Expr::Config(field) => Term::Scalar(0, field as int),
            Expr::Binding(level) => Term::Scalar(0, level as int),
            Expr::Field(_, field) => Term::Scalar(0, field as int),
            Expr::SelfResource { kind, grants, .. } => Term::Node(
                0,
                seq![Term::Scalar(0, kind.number()), grants.term()],
            ),
            Expr::ChildKey { slot, .. } => slot.head(),
            Expr::FreshId { slot } => Term::Scalar(0, slot as int),
            Expr::FreshKey { slot } => Term::Scalar(0, slot as int),
            Expr::OrderKey { slot, .. } => Term::Scalar(0, slot.0 as int),
            _ => Term::nothing(),
        }
    }

    /// The expressions directly inside an expression, in the order they
    /// are written.
    #[verifier::opaque]
    pub open spec fn inside(self) -> Seq<Expr> {
        match self {
            Expr::Literal(_) => Seq::empty(),
            Expr::Arg(_) => Seq::empty(),
            Expr::Config(_) => Seq::empty(),
            Expr::Binding(_) => Seq::empty(),
            Expr::SelfAddr => Seq::empty(),
            Expr::SelfRecord => Seq::empty(),
            Expr::Field(inner, _) => seq![*inner],
            Expr::ResourceOf(edge) => seq![*edge],
            Expr::IdsOf(edge) => seq![*edge],
            Expr::Len(list) => seq![*list],
            Expr::Only(list) => seq![*list],
            Expr::List(elements) => elements@,
            Expr::Tuple(fields) => fields@,
            Expr::NfBucket { resource, ids } => seq![*resource, *ids],
            Expr::Lookup { map, key } => seq![*map, *key],
            Expr::SelfResource { material, .. } => material@,
            Expr::ChildKey { owner, slot, material } => seq![*owner] + slot.naming() + material@,
            Expr::FreshId { .. } => Seq::empty(),
            Expr::FreshKey { .. } => Seq::empty(),
            Expr::Pack { hi, lo } => seq![*hi, *lo],
            Expr::OrderKey { owner, material, .. } => seq![*owner] + material@,
            Expr::Add(left, right) => seq![*left, *right],
            Expr::Not(judgment) => seq![*judgment],
            Expr::And(left, right) => seq![*left, *right],
            Expr::Or(left, right) => seq![*left, *right],
            Expr::Eq(left, right) => seq![*left, *right],
            Expr::Lt(left, right) => seq![*left, *right],
            Expr::Contains { map, key } => seq![*map, *key],
            Expr::If { cond, chosen, otherwise } => seq![*cond, *chosen, *otherwise],
        }
    }

    /// What is inside an expression is smaller than it.
    pub proof fn lemma_inside_smaller(self)
        ensures
            forall|i: int|
                0 <= i < self.inside().len() ==> #[trigger] decreases_to!(self => self.inside()[i]),
    {
        reveal(Expr::inside);
        assert forall|i: int| 0 <= i < self.inside().len() implies #[trigger] decreases_to!(self => self.inside()[i]) by {
            match self {
                Expr::List(elements) => {
                    assert(decreases_to!(self => elements@[i]));
                },
                Expr::Tuple(elements) => {
                    assert(decreases_to!(self => elements@[i]));
                },
                Expr::SelfResource { material, .. } => {
                    assert(decreases_to!(self => material@[i]));
                },
                Expr::ChildKey { owner, slot, material } => {
                    let before = 1 + slot.naming().len();
                    if i >= before {
                        assert(self.inside()[i] == material@[i - before]);
                        assert(decreases_to!(self => material@[i - before]));
                    } else if i == 1 {
                        assert(self.inside()[i] == slot.naming()[0]);
                        assert(decreases_to!(slot => slot->Reached_0));
                    }
                },
                Expr::OrderKey { owner, material, .. } => {
                    if i > 0 {
                        assert(self.inside()[i] == material@[i - 1]);
                        assert(decreases_to!(self => material@[i - 1]));
                    }
                },
                _ => {},
            }
        }
    }
}

impl Expr {
    /// The expression as a term.
    pub open spec fn term(self) -> Term
        decreases self,
    {
        proof {
            self.lemma_inside_smaller();
        }
        let inside = self.inside();
        Term::Node(
            self.form(),
            seq![
                self.head(),
                Term::Node(
                    0,
                    Seq::new(
                        inside.len(),
                        |i: int|
                            if 0 <= i < inside.len() {
                                inside[i].term()
                            } else {
                                Term::nothing()
                            },
                    ),
                ),
            ],
        )
    }

    /// The terms of a run of expressions, in order.
    pub open spec fn terms(exprs: Seq<Expr>) -> Seq<Term> {
        Seq::new(exprs.len(), |i: int| exprs[i].term())
    }
}

impl Expr {
    /// The expressions directly inside an expression, in the order they
    /// are written.
    pub fn children(&self) -> (r: Vec<&Expr>)
        ensures
            r@.unref() == self.inside(),
    {
        reveal(Expr::inside);
        let mut r: Vec<&Expr> = Vec::new();
        match self {
            Expr::Literal(_) => {},
            Expr::Arg(_) => {},
            Expr::Config(_) => {},
            Expr::Binding(_) => {},
            Expr::SelfAddr => {},
            Expr::SelfRecord => {},
            Expr::Field(inner, _) => {
                r.push(&**inner);
            },
            Expr::ResourceOf(edge) => {
                r.push(&**edge);
            },
            Expr::IdsOf(edge) => {
                r.push(&**edge);
            },
            Expr::Len(list) => {
                r.push(&**list);
            },
            Expr::Only(list) => {
                r.push(&**list);
            },
            Expr::List(elements) => {
                push_all(&mut r, elements);
            },
            Expr::Tuple(fields) => {
                push_all(&mut r, fields);
            },
            Expr::NfBucket { resource, ids } => {
                r.push(&**resource);
                r.push(&**ids);
            },
            Expr::Lookup { map, key } => {
                r.push(&**map);
                r.push(&**key);
            },
            Expr::SelfResource { material, .. } => {
                push_all(&mut r, material);
            },
            Expr::ChildKey { owner, slot, material } => {
                r.push(&**owner);
                match slot {
                    SlotRef::Fixed(_) => {},
                    SlotRef::Reached(expr) => {
                        r.push(&**expr);
                    },
                }
                assert(r@.unref() =~= seq![**owner] + slot.naming());
                push_all(&mut r, material);
            },
            Expr::FreshId { .. } => {},
            Expr::FreshKey { .. } => {},
            Expr::Pack { hi, lo } => {
                r.push(&**hi);
                r.push(&**lo);
            },
            Expr::OrderKey { owner, material, .. } => {
                r.push(&**owner);
                assert(r@.unref() =~= seq![**owner]);
                push_all(&mut r, material);
            },
            Expr::Add(left, right) => {
                r.push(&**left);
                r.push(&**right);
            },
            Expr::Not(judgment) => {
                r.push(&**judgment);
            },
            Expr::And(left, right) => {
                r.push(&**left);
                r.push(&**right);
            },
            Expr::Or(left, right) => {
                r.push(&**left);
                r.push(&**right);
            },
            Expr::Eq(left, right) => {
                r.push(&**left);
                r.push(&**right);
            },
            Expr::Lt(left, right) => {
                r.push(&**left);
                r.push(&**right);
            },
            Expr::Contains { map, key } => {
                r.push(&**map);
                r.push(&**key);
            },
            Expr::If { cond, chosen, otherwise } => {
                r.push(&**cond);
                r.push(&**chosen);
                r.push(&**otherwise);
            },
        }
        assert(r@.unref() =~= self.inside());
        r
    }

    /// Whether two expressions take one form and carry the same things
    /// beside the expressions in them.
    fn same_head(&self, other: &Expr) -> (r: bool)
        ensures
            r == (self.form() == other.form() && self.head() == other.head()),
    {
        reveal(Expr::head);
        match (self, other) {
            (Expr::Literal(left), Expr::Literal(right)) => left.same(right),
            (Expr::Arg(left), Expr::Arg(right)) => *left == *right,
            (Expr::Config(left), Expr::Config(right)) => *left == *right,
            (Expr::Binding(left), Expr::Binding(right)) => *left == *right,
            (Expr::SelfAddr, Expr::SelfAddr) => true,
            (Expr::SelfRecord, Expr::SelfRecord) => true,
            (Expr::Field(_, left), Expr::Field(_, right)) => *left == *right,
            (Expr::ResourceOf(_), Expr::ResourceOf(_)) => true,
            (Expr::IdsOf(_), Expr::IdsOf(_)) => true,
            (Expr::Len(_), Expr::Len(_)) => true,
            (Expr::Only(_), Expr::Only(_)) => true,
            (Expr::List(_), Expr::List(_)) => true,
            (Expr::Tuple(_), Expr::Tuple(_)) => true,
            (Expr::NfBucket { .. }, Expr::NfBucket { .. }) => true,
            (Expr::Lookup { .. }, Expr::Lookup { .. }) => true,
            (
                Expr::SelfResource { kind: left, grants: here, .. },
                Expr::SelfResource { kind: right, grants: there, .. },
            ) => {
                proof {
                    Term::lemma_two(
                        Term::Scalar(0, left.number()),
                        here.term(),
                        Term::Scalar(0, right.number()),
                        there.term(),
                    );
                }
                *left == *right && here.same(there)
            },
            (Expr::ChildKey { slot: left, .. }, Expr::ChildKey { slot: right, .. }) => {
                left.same_head(right)
            },
            (Expr::FreshId { slot: left }, Expr::FreshId { slot: right }) => *left == *right,
            (Expr::FreshKey { slot: left }, Expr::FreshKey { slot: right }) => *left == *right,
            (Expr::Pack { .. }, Expr::Pack { .. }) => true,
            (Expr::OrderKey { slot: left, .. }, Expr::OrderKey { slot: right, .. }) => left.0
                == right.0,
            (Expr::Add(_, _), Expr::Add(_, _)) => true,
            (Expr::Not(_), Expr::Not(_)) => true,
            (Expr::And(_, _), Expr::And(_, _)) => true,
            (Expr::Or(_, _), Expr::Or(_, _)) => true,
            (Expr::Eq(_, _), Expr::Eq(_, _)) => true,
            (Expr::Lt(_, _), Expr::Lt(_, _)) => true,
            (Expr::Contains { .. }, Expr::Contains { .. }) => true,
            (Expr::If { .. }, Expr::If { .. }) => true,
            _ => false,
        }
    }

    /// Whether two expressions are the same expression.
    pub fn same(&self, other: &Expr) -> (r: bool)
        ensures
            r == (self.term() == other.term()),
        decreases self,
    {
        let ghost here = Expr::terms(self.inside());
        let ghost there = Expr::terms(other.inside());
        proof {
            self.lemma_term();
            other.lemma_term();
            self.lemma_inside_smaller();
            Term::lemma_two(
                self.head(),
                Term::Node(0, here),
                other.head(),
                Term::Node(0, there),
            );
        }
        if !self.same_head(other) {
            return false;
        }
        let left = self.children();
        let right = other.children();
        if left.len() != right.len() {
            assert(here.len() != there.len());
            return false;
        }
        let mut i: usize = 0;
        while i < left.len()
            invariant
                i <= left.len(),
                left.len() == right.len(),
                left@.unref() == self.inside(),
                right@.unref() == other.inside(),
                here == Expr::terms(self.inside()),
                there == Expr::terms(other.inside()),
                forall|j: int| 0 <= j < i ==> here[j] == there[j],
                forall|j: int|
                    0 <= j < self.inside().len() ==> #[trigger] decreases_to!(self => self.inside()[j]),
                here != there ==> self.term() != other.term(),
            decreases left.len() - i,
        {
            assert(left@.unref()[i as int] == *left@[i as int]);
            assert(right@.unref()[i as int] == *right@[i as int]);
            assert(decreases_to!(self => self.inside()[i as int]));
            if !left[i].same(right[i]) {
                assert(here[i as int] != there[i as int]);
                return false;
            }
            i = i + 1;
        }
        assert(here =~= there);
        true
    }

    /// An expression's term is its form over what it carries and the terms
    /// of what is in it.
    pub proof fn lemma_term(self)
        ensures
            self.term() == Term::Node(
                self.form(),
                seq![self.head(), Term::Node(0, Expr::terms(self.inside()))],
            ),
    {
        let kids = self.term()->Node_1;
        assert(kids[1]->Node_1 =~= Expr::terms(self.inside()));
        assert(kids =~= seq![self.head(), Term::Node(0, Expr::terms(self.inside()))]);
    }

    /// Whether two runs of expressions are the same run.
    pub fn all_same(left: &[Expr], right: &[Expr]) -> (r: bool)
        ensures
            r == (Expr::terms(left@) == Expr::terms(right@)),
    {
        if left.len() != right.len() {
            assert(Expr::terms(left@).len() != Expr::terms(right@).len());
            return false;
        }
        let mut i: usize = 0;
        while i < left.len()
            invariant
                i <= left.len(),
                left.len() == right.len(),
                forall|j: int| 0 <= j < i ==> Expr::terms(left@)[j] == Expr::terms(right@)[j],
            decreases left.len() - i,
        {
            if !left[i].same(&right[i]) {
                assert(Expr::terms(left@)[i as int] != Expr::terms(right@)[i as int]);
                return false;
            }
            i = i + 1;
        }
        assert(Expr::terms(left@) =~= Expr::terms(right@));
        true
    }
}

impl SlotRef {
    /// Whether two references carry the same thing beside the expression
    /// naming them.
    fn same_head(&self, other: &SlotRef) -> (r: bool)
        ensures
            r == (self.head() == other.head()),
    {
        match (self, other) {
            (SlotRef::Fixed(left), SlotRef::Fixed(right)) => left.0 == right.0,
            (SlotRef::Reached(_), SlotRef::Reached(_)) => true,
            _ => false,
        }
    }

    /// The reference as a term.
    pub open spec fn term(self) -> Term {
        match self {
            SlotRef::Fixed(slot) => Term::Scalar(0, slot.0 as int),
            SlotRef::Reached(expr) => expr.term(),
        }
    }

    /// Whether two references name a slot the same way.
    pub fn same(&self, other: &SlotRef) -> (r: bool)
        ensures
            r == (self.term() == other.term()),
    {
        match (self, other) {
            (SlotRef::Fixed(left), SlotRef::Fixed(right)) => left.0 == right.0,
            (SlotRef::Reached(left), SlotRef::Reached(right)) => left.same(right),
            _ => {
                proof {
                    match (self, other) {
                        (SlotRef::Fixed(_), SlotRef::Reached(expr)) => expr.lemma_term(),
                        (SlotRef::Reached(expr), SlotRef::Fixed(_)) => expr.lemma_term(),
                        _ => {},
                    }
                }
                false
            },
        }
    }

    /// The expression naming the slot, where one does.
    pub fn reached(&self) -> (r: Option<&Expr>)
        ensures
            match r {
                Some(expr) => self.naming() == seq![*expr],
                None => self.naming() == Seq::<Expr>::empty(),
            },
    {
        match self {
            SlotRef::Fixed(_) => None,
            SlotRef::Reached(expr) => Some(&**expr),
        }
    }
}

/// Append references to a run of expressions, in order.
pub fn push_all<'a>(into: &mut Vec<&'a Expr>, exprs: &'a Vec<Expr>)
    ensures
        final(into)@.unref() == old(into)@.unref() + exprs@,
{
    let ghost start = into@.unref();
    assert(start + exprs@.take(0) =~= start);
    let mut i: usize = 0;
    while i < exprs.len()
        invariant
            i <= exprs.len(),
            into@.unref() == start + exprs@.take(i as int),
        decreases exprs.len() - i,
    {
        let ghost before = into@.unref();
        into.push(&exprs[i]);
        assert(into@.unref() =~= before.push(exprs@[i as int]));
        assert(into@.unref() =~= start + exprs@.take(i as int + 1));
        i = i + 1;
    }
    assert(exprs@.take(i as int) =~= exprs@);
}

impl TargetExpr {
    /// The target as a term.
    pub open spec fn term(self) -> Term {
        match self {
            TargetExpr::Point(key) => Term::Node(0, seq![key.term()]),
            TargetExpr::Entry { owner, collection, material, order } => Term::Node(
                1,
                seq![
                    owner.term(),
                    collection.term(),
                    Term::Node(0, Expr::terms(material@)),
                    order.term(),
                ],
            ),
            TargetExpr::Range { owner, collection, material, lo, hi, cap } => Term::Node(
                2,
                seq![
                    owner.term(),
                    collection.term(),
                    Term::Node(0, Expr::terms(material@)),
                    lo.term(),
                    hi.term(),
                    cap.term(),
                ],
            ),
        }
    }

    /// Whether two targets are the same target.
    pub fn same(&self, other: &TargetExpr) -> (r: bool)
        ensures
            r == (self.term() == other.term()),
    {
        let ghost here = self.term()->Node_1;
        let ghost there = other.term()->Node_1;
        match (self, other) {
            (TargetExpr::Point(left), TargetExpr::Point(right)) => {
                proof {
                    Term::lemma_one(left.term(), right.term());
                }
                left.same(right)
            },
            (
                TargetExpr::Entry { owner, collection, material, order },
                TargetExpr::Entry { owner: host, collection: held, material: by, order: at },
            ) => {
                let r = owner.same(host) && collection.same(held) && Expr::all_same(
                    material.as_slice(),
                    by.as_slice(),
                ) && order.same(at);
                proof {
                    if r {
                        assert(here =~= there);
                    } else {
                        assert(here[0] != there[0] || here[1] != there[1] || here[2] != there[2]
                            || here[3] != there[3]);
                    }
                }
                r
            },
            (
                TargetExpr::Range { owner, collection, material, lo, hi, cap },
                TargetExpr::Range {
                    owner: host,
                    collection: held,
                    material: by,
                    lo: low,
                    hi: high,
                    cap: most,
                },
            ) => {
                let r = owner.same(host) && collection.same(held) && Expr::all_same(
                    material.as_slice(),
                    by.as_slice(),
                ) && lo.same(low) && hi.same(high) && cap.same(most);
                proof {
                    if r {
                        assert(here =~= there);
                    } else {
                        assert(here[0] != there[0] || here[1] != there[1] || here[2] != there[2]
                            || here[3] != there[3] || here[4] != there[4] || here[5] != there[5]);
                    }
                }
                r
            },
            _ => false,
        }
    }
}

/// The slot a target names and the material keying it there, or nothing
/// for a key that is no child of a slot.
pub open spec fn named_slot(target: TargetExpr) -> Option<(SlotRef, Seq<Expr>)> {
    match target {
        TargetExpr::Point(Expr::ChildKey { slot, material, .. }) => Some((slot, material@)),
        TargetExpr::Point(_) => None,
        TargetExpr::Entry { collection, material, .. } => Some((collection, material@)),
        TargetExpr::Range { collection, material, .. } => Some((collection, material@)),
    }
}

/// The slot a target names and the material keying it there.
///
/// Both point shapes and both collection shapes carry one: a child key
/// spells the slot beside its material, and a collection carries it as
/// the identity its entries hang under. A fresh key is minted under the
/// owner rather than being a child of any slot, so there is nothing to
/// name.
pub fn slot_of(target: &TargetExpr) -> (r: Option<(&SlotRef, &Vec<Expr>)>)
    ensures
        match r {
            Some((slot, material)) => named_slot(*target) == Some((*slot, material@)),
            None => named_slot(*target) is None,
        },
{
    match target {
        TargetExpr::Point(key) => match key {
            Expr::ChildKey { slot, material, .. } => Some((slot, material)),
            _ => None,
        },
        TargetExpr::Entry { collection, material, .. } => Some((collection, material)),
        TargetExpr::Range { collection, material, .. } => Some((collection, material)),
    }
}

/// Whether a handle is built for reaching `target` under `mode`: a leaf is
/// reached any way there is, and a collection read or rewritten.
pub open spec fn is_supported(target: TargetExpr, mode: ModeExpr) -> bool {
    target is Point || mode is Read || mode is Write
}

/// Whether a handle is built for reaching `target` under `mode`.
pub fn supports(target: &TargetExpr, mode: &ModeExpr) -> (r: bool)
    ensures
        r == is_supported(*target, *mode),
{
    match target {
        TargetExpr::Point(_) => true,
        _ => match mode {
            ModeExpr::Read => true,
            ModeExpr::Write { .. } => true,
            _ => false,
        },
    }
}

/// The term of an expression that may not be there.
pub open spec fn optional_term(expr: Option<Box<Expr>>) -> Option<Term> {
    match expr {
        Some(held) => Some(held.term()),
        None => None,
    }
}

/// Whether two expressions that may not be there are the same.
pub fn same_optional(left: &Option<Box<Expr>>, right: &Option<Box<Expr>>) -> (r: bool)
    ensures
        r == (optional_term(*left) == optional_term(*right)),
{
    match (left, right) {
        (Some(one), Some(two)) => one.same(two),
        (None, None) => true,
        _ => false,
    }
}

impl Clause {
    /// The judgment a clause is declared under, where there is one.
    pub open spec fn condition(self) -> Option<Box<Expr>> {
        match self {
            Clause::Effect { guard, .. } => guard,
            Clause::ForEach { guard, .. } => guard,
            Clause::Requires { guard, .. } => guard,
            Clause::Mints { guard, .. } => guard,
        }
    }

    /// The judgment a clause is declared under, where there is one.
    pub fn guard(&self) -> (r: &Option<Box<Expr>>)
        ensures
            *r == self.condition(),
    {
        match self {
            Clause::Effect { guard, .. } => guard,
            Clause::ForEach { guard, .. } => guard,
            Clause::Requires { guard, .. } => guard,
            Clause::Mints { guard, .. } => guard,
        }
    }

    /// A clause and, for a loop, its body beneath it, each before what it
    /// holds.
    pub open spec fn walk(self) -> Seq<Clause>
        decreases self,
    {
        match self {
            Clause::ForEach { body, .. } => seq![self] + Clause::preorder(body@),
            _ => seq![self],
        }
    }

    /// Clauses and the bodies of the loops among them, each before what
    /// it holds: the numbering a clause index counts in.
    pub open spec fn preorder(clauses: Seq<Clause>) -> Seq<Clause>
        decreases clauses,
    {
        if clauses.len() == 0 {
            Seq::empty()
        } else {
            Clause::preorder(clauses.drop_last()) + clauses.last().walk()
        }
    }

    /// Every clause of a declaration, in the order a clause index counts
    /// in.
    pub fn flatten(clauses: &Vec<Clause>) -> (r: Vec<&Clause>)
        ensures
            r@.unref() == Clause::preorder(clauses@),
    {
        let mut r: Vec<&Clause> = Vec::new();
        Clause::push_walk(clauses, &mut r);
        assert(r@.unref() =~= Clause::preorder(clauses@));
        r
    }

    /// Append clauses and the bodies of the loops among them.
    fn push_walk<'a>(clauses: &'a Vec<Clause>, into: &mut Vec<&'a Clause>)
        ensures
            final(into)@.unref() == old(into)@.unref() + Clause::preorder(clauses@),
        decreases clauses,
    {
        let ghost start = into@.unref();
        let mut i: usize = 0;
        assert(start + Clause::preorder(clauses@.take(0)) =~= start);
        while i < clauses.len()
            invariant
                i <= clauses.len(),
                into@.unref() == start + Clause::preorder(clauses@.take(i as int)),
            decreases clauses.len() - i,
        {
            let ghost before = into@.unref();
            let ghost listed = Clause::preorder(clauses@.take(i as int));
            into.push(&clauses[i]);
            assert(into@.unref() =~= before + seq![clauses@[i as int]]);
            match &clauses[i] {
                Clause::ForEach { body, .. } => {
                    Clause::push_walk(body, into);
                    assert(into@.unref() =~= before + clauses@[i as int].walk());
                },
                _ => {},
            }
            proof {
                let longer = clauses@.take(i as int + 1);
                assert(longer.drop_last() =~= clauses@.take(i as int));
                assert(longer.last() == clauses@[i as int]);
                assert(start + listed + clauses@[i as int].walk() =~= start + (listed
                    + clauses@[i as int].walk()));
            }
            i = i + 1;
        }
        assert(clauses@.take(i as int) =~= clauses@);
    }
}

impl Expr {
    /// Whether an expression reads an argument anywhere in it.
    pub open spec fn reads_argument(self) -> bool
        decreases self,
    {
        proof {
            self.lemma_inside_smaller();
        }
        let inside = self.inside();
        ||| self is Arg
        ||| exists|i: int|
            0 <= i < inside.len() && (#[trigger] inside[i]).reads_argument()
    }

    /// Whether an expression reads an argument anywhere in it.
    pub fn reads_arguments(&self) -> (r: bool)
        ensures
            r == self.reads_argument(),
        decreases self,
    {
        match self {
            Expr::Arg(_) => {
                return true;
            },
            _ => {},
        }
        let inside = self.children();
        proof {
            self.lemma_inside_smaller();
        }
        let mut i: usize = 0;
        while i < inside.len()
            invariant
                i <= inside.len(),
                inside@.unref() == self.inside(),
                self !is Arg,
                forall|j: int|
                    0 <= j < self.inside().len() ==> #[trigger] decreases_to!(self => self.inside()[j]),
                forall|j: int| 0 <= j < i ==> !(#[trigger] self.inside()[j]).reads_argument(),
            decreases inside.len() - i,
        {
            assert(inside@.unref()[i as int] == *inside@[i as int]);
            assert(decreases_to!(self => self.inside()[i as int]));
            if inside[i].reads_arguments() {
                assert(self.inside()[i as int].reads_argument());
                return true;
            }
            i = i + 1;
        }
        false
    }
}

} // verus!
