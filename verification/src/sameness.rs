//! When two pieces of a declaration are the same piece: their terms agree
//! exactly where they take one form, carry the same things, and are made
//! of the same pieces in the same places.
use vstd::prelude::*;

use crate::address::Address;
use crate::dsl::{Expr, SlotRef, TargetExpr};
use crate::shape::{ShapeField, ShapeVariant, TypeShape};
use crate::term::Term;
use crate::types::{EdgeContent, Value};

verus! {

/// Whether two expressions are the same expression.
pub open spec fn one_expr(left: Expr, right: Expr) -> bool {
    left.term() == right.term()
}

/// Whether two runs are made of the same expressions in the same order.
pub open spec fn one_run(left: Seq<Expr>, right: Seq<Expr>) -> bool {
    &&& left.len() == right.len()
    &&& forall|i: int| 0 <= i < left.len() ==> one_expr(#[trigger] left[i], right[i])
}

/// Whether two references name one slot: the same number written down, or
/// the same expression.
pub open spec fn one_slot(left: SlotRef, right: SlotRef) -> bool {
    match (left, right) {
        (SlotRef::Fixed(one), SlotRef::Fixed(other)) => one.0 == other.0,
        (SlotRef::Reached(one), SlotRef::Reached(other)) => one_expr(*one, *other),
        _ => false,
    }
}

/// Two expressions are the same exactly where they take one form, carry
/// the same literal, number or slot, and hold the same expressions in the
/// same places.
#[verifier::rlimit(60)]
pub proof fn law_expressions_are_told_apart(left: Expr, right: Expr)
    ensures
        one_expr(left, right) <==> (match (left, right) {
            (Expr::Literal(one), Expr::Literal(other)) => one.term() == other.term(),
            (Expr::Arg(one), Expr::Arg(other)) => one == other,
            (Expr::Config(one), Expr::Config(other)) => one == other,
            (Expr::Binding(one), Expr::Binding(other)) => one == other,
            (Expr::SelfAddr, Expr::SelfAddr) => true,
            (Expr::SelfRecord, Expr::SelfRecord) => true,
            (Expr::Field(one, field), Expr::Field(other, at)) => one_expr(*one, *other) && field
                == at,
            (Expr::ResourceOf(one), Expr::ResourceOf(other)) => one_expr(*one, *other),
            (Expr::IdsOf(one), Expr::IdsOf(other)) => one_expr(*one, *other),
            (Expr::Len(one), Expr::Len(other)) => one_expr(*one, *other),
            (Expr::Only(one), Expr::Only(other)) => one_expr(*one, *other),
            (Expr::List(one), Expr::List(other)) => one_run(one@, other@),
            (Expr::Tuple(one), Expr::Tuple(other)) => one_run(one@, other@),
            (Expr::NfBucket { resource, ids }, Expr::NfBucket { resource: of, ids: by }) => one_expr(
                *resource,
                *of,
            ) && one_expr(*ids, *by),
            (Expr::Lookup { map, key }, Expr::Lookup { map: of, key: by }) => one_expr(*map, *of)
                && one_expr(*key, *by),
            (
                Expr::SelfResource { kind, material, grants },
                Expr::SelfResource { kind: sort, material: by, grants: entries },
            ) => kind == sort && grants.term() == entries.term() && one_run(material@, by@),
            (
                Expr::ChildKey { owner, slot, material },
                Expr::ChildKey { owner: of, slot: at, material: by },
            ) => one_expr(*owner, *of) && one_slot(slot, at) && one_run(material@, by@),
            (Expr::FreshId { slot }, Expr::FreshId { slot: at }) => slot == at,
            (Expr::FreshKey { slot }, Expr::FreshKey { slot: at }) => slot == at,
            (Expr::Pack { hi, lo }, Expr::Pack { hi: above, lo: below }) => one_expr(*hi, *above)
                && one_expr(*lo, *below),
            (
                Expr::OrderKey { owner, slot, material },
                Expr::OrderKey { owner: of, slot: at, material: by },
            ) => one_expr(*owner, *of) && slot.0 == at.0 && one_run(material@, by@),
            (Expr::Add(one, with), Expr::Add(other, by)) => one_expr(*one, *other) && one_expr(
                *with,
                *by,
            ),
            (Expr::Not(one), Expr::Not(other)) => one_expr(*one, *other),
            (Expr::And(one, with), Expr::And(other, by)) => one_expr(*one, *other) && one_expr(
                *with,
                *by,
            ),
            (Expr::Or(one, with), Expr::Or(other, by)) => one_expr(*one, *other) && one_expr(
                *with,
                *by,
            ),
            (Expr::Eq(one, with), Expr::Eq(other, by)) => one_expr(*one, *other) && one_expr(
                *with,
                *by,
            ),
            (Expr::Lt(one, with), Expr::Lt(other, by)) => one_expr(*one, *other) && one_expr(
                *with,
                *by,
            ),
            (Expr::Contains { map, key }, Expr::Contains { map: of, key: by }) => one_expr(
                *map,
                *of,
            ) && one_expr(*key, *by),
            (
                Expr::If { cond, chosen, otherwise },
                Expr::If { cond: on, chosen: this, otherwise: that },
            ) => one_expr(*cond, *on) && one_expr(*chosen, *this) && one_expr(*otherwise, *that),
            _ => false,
        }),
{
    reveal(Expr::inside);
    reveal(Expr::head);
    left.lemma_term();
    right.lemma_term();
    let here = left.inside();
    let there = right.inside();
    Term::lemma_two(
        left.head(),
        Term::Node(0, Expr::terms(here)),
        right.head(),
        Term::Node(0, Expr::terms(there)),
    );
    lemma_one_run(here, there);
    assert(one_expr(left, right) == (left.form() == right.form() && left.head() == right.head()
        && one_run(here, there)));
    match (left, right) {
        (
            Expr::SelfResource { kind, grants, .. },
            Expr::SelfResource { kind: sort, grants: entries, .. },
        ) => {
            Term::lemma_two(
                Term::Scalar(0, kind.number()),
                grants.term(),
                Term::Scalar(0, sort.number()),
                entries.term(),
            );
        },
        (
            Expr::ChildKey { owner, slot, material },
            Expr::ChildKey { owner: of, slot: at, material: by },
        ) => {
            lemma_run_in_parts(seq![*owner], slot.naming(), material@, seq![*of], at.naming(), by@);
            lemma_run_of_one(*owner, *of);
            match (slot, at) {
                (SlotRef::Reached(one), SlotRef::Reached(other)) => lemma_run_of_one(*one, *other),
                _ => {},
            }
        },
        (
            Expr::OrderKey { owner, material, .. },
            Expr::OrderKey { owner: of, material: by, .. },
        ) => {
            let none = Seq::<Expr>::empty();
            assert(seq![*owner] + material@ =~= seq![*owner] + none + material@);
            assert(seq![*of] + by@ =~= seq![*of] + none + by@);
            lemma_run_in_parts(seq![*owner], none, material@, seq![*of], none, by@);
            lemma_run_of_one(*owner, *of);
        },
        (Expr::List(_), Expr::List(_)) => {},
        (Expr::Tuple(_), Expr::Tuple(_)) => {},
        _ => {
            if left.form() == right.form() && here.len() > 0 {
                assert(one_run(here, there) ==> one_expr(here[0], there[0]));
                if here.len() > 1 {
                    assert(one_run(here, there) ==> one_expr(here[1], there[1]));
                }
                if here.len() > 2 {
                    assert(one_run(here, there) ==> one_expr(here[2], there[2]));
                }
            }
        },
    }
}

/// Two runs have one term each for each exactly where they are one run.
proof fn lemma_one_run(left: Seq<Expr>, right: Seq<Expr>)
    ensures
        (Expr::terms(left) == Expr::terms(right)) == one_run(left, right),
{
    let here = Expr::terms(left);
    let there = Expr::terms(right);
    if here == there {
        assert(here.len() == there.len());
        assert forall|i: int| 0 <= i < left.len() implies one_expr(#[trigger] left[i], right[i]) by {
            assert(here[i] == there[i]);
        }
    } else if one_run(left, right) {
        assert forall|i: int| 0 <= i < here.len() implies here[i] == there[i] by {
            assert(one_expr(left[i], right[i]));
        }
        assert(here =~= there);
    }
}

/// A run of one is one run exactly where it is one expression.
proof fn lemma_run_of_one(left: Expr, right: Expr)
    ensures
        one_run(seq![left], seq![right]) == one_expr(left, right),
{
    if one_run(seq![left], seq![right]) {
        assert(one_expr(seq![left][0], seq![right][0]));
    }
}

/// A run in three parts, the first two of one length each way, is one run
/// exactly where each part is.
proof fn lemma_run_in_parts(
    a: Seq<Expr>,
    b: Seq<Expr>,
    c: Seq<Expr>,
    x: Seq<Expr>,
    y: Seq<Expr>,
    z: Seq<Expr>,
)
    requires
        a.len() == x.len(),
    ensures
        b.len() == y.len() ==> one_run(a + b + c, x + y + z) == (one_run(a, x) && one_run(b, y)
            && one_run(c, z)),
{
    let here = a + b + c;
    let there = x + y + z;
    if b.len() == y.len() {
        if one_run(here, there) {
            assert forall|i: int| 0 <= i < a.len() implies one_expr(#[trigger] a[i], x[i]) by {
                assert(one_expr(here[i], there[i]));
            }
            assert forall|i: int| 0 <= i < b.len() implies one_expr(#[trigger] b[i], y[i]) by {
                assert(one_expr(here[a.len() + i], there[a.len() + i]));
            }
            assert forall|i: int| 0 <= i < c.len() implies one_expr(#[trigger] c[i], z[i]) by {
                assert(one_expr(here[a.len() + b.len() + i], there[a.len() + b.len() + i]));
            }
        } else if one_run(a, x) && one_run(b, y) && one_run(c, z) {
            assert forall|i: int| 0 <= i < here.len() implies one_expr(
                #[trigger] here[i],
                there[i],
            ) by {
                if i < a.len() {
                    assert(one_expr(a[i], x[i]));
                } else if i < a.len() + b.len() {
                    assert(one_expr(b[i - a.len()], y[i - a.len()]));
                } else {
                    assert(one_expr(
                        c[i - a.len() - b.len()],
                        z[i - a.len() - b.len()],
                    ));
                }
            }
        }
    }
}

/// Two targets are the same exactly where they reach one leaf by one key,
/// or one place of one collection: whose it is, its slot, what it is keyed
/// by, and the entry's order or the interval's two ends and cap.
pub proof fn law_targets_are_told_apart(left: TargetExpr, right: TargetExpr)
    ensures
        left.term() == right.term() <==> (match (left, right) {
            (TargetExpr::Point(one), TargetExpr::Point(other)) => one_expr(one, other),
            (
                TargetExpr::Entry { owner, collection, material, order },
                TargetExpr::Entry { owner: of, collection: at, material: by, order: place },
            ) => one_expr(owner, of) && one_slot(collection, at) && one_run(material@, by@)
                && one_expr(order, place),
            (
                TargetExpr::Range { owner, collection, material, lo, hi, cap },
                TargetExpr::Range { owner: of, collection: at, material: by, lo: from, hi: to, cap: most },
            ) => one_expr(owner, of) && one_slot(collection, at) && one_run(material@, by@)
                && one_expr(lo, from) && one_expr(hi, to) && one_expr(cap, most),
            _ => false,
        }),
{
    match (left, right) {
        (TargetExpr::Point(one), TargetExpr::Point(other)) => {
            Term::lemma_one(one.term(), other.term());
        },
        (
            TargetExpr::Entry { owner, collection, material, order },
            TargetExpr::Entry { owner: of, collection: at, material: by, order: place },
        ) => {
            lemma_one_run(material@, by@);
            lemma_one_slot(collection, at);
            let here = left.term()->Node_1;
            let there = right.term()->Node_1;
            assert(here == there ==> here[0] == there[0] && here[1] == there[1] && here[2]
                == there[2] && here[3] == there[3]);
        },
        (
            TargetExpr::Range { owner, collection, material, lo, hi, cap },
            TargetExpr::Range { owner: of, collection: at, material: by, lo: from, hi: to, cap: most },
        ) => {
            lemma_one_run(material@, by@);
            lemma_one_slot(collection, at);
            let here = left.term()->Node_1;
            let there = right.term()->Node_1;
            assert(here == there ==> here[0] == there[0] && here[1] == there[1] && here[2]
                == there[2] && here[3] == there[3] && here[4] == there[4] && here[5] == there[5]);
        },
        _ => {},
    }
}

/// Two references have one term exactly where they name one slot.
proof fn lemma_one_slot(left: SlotRef, right: SlotRef)
    ensures
        left.term() == right.term() <==> one_slot(left, right),
{
    match (left, right) {
        (SlotRef::Fixed(_), SlotRef::Reached(expr)) => expr.lemma_term(),
        (SlotRef::Reached(expr), SlotRef::Fixed(_)) => expr.lemma_term(),
        _ => {},
    }
}

/// Two values are the same exactly where they take one form and carry the
/// same number, bytes, address, key, edge or judgment, or hold the same
/// values in the same places.
#[verifier::rlimit(60)]
pub proof fn law_values_are_told_apart(left: Value, right: Value)
    ensures
        left.term() == right.term() <==> (match (left, right) {
            (Value::U64(one), Value::U64(other)) => one == other,
            (Value::U128(one), Value::U128(other)) => one == other,
            (Value::U256(one), Value::U256(other)) => one.hi == other.hi && one.lo == other.lo,
            (Value::Bytes(one), Value::Bytes(other)) => one@ == other@,
            (Value::Address(one), Value::Address(other)) => one == other,
            (Value::Key(one), Value::Key(other)) => one.owner == other.owner && one.local.0@
                == other.local.0@,
            (
                Value::Bucket { resource, content },
                Value::Bucket { resource: of, content: carried },
            ) => resource == of && match (content, carried) {
                (EdgeContent::Fungible, EdgeContent::Fungible) => true,
                (EdgeContent::NonFungible { ids }, EdgeContent::NonFungible { ids: named }) => ids@
                    == named@,
                _ => false,
            },
            (Value::Tuple(one), Value::Tuple(other)) => one_values(one@, other@),
            (Value::List(one), Value::List(other)) => one_values(one@, other@),
            (Value::Bool(one), Value::Bool(other)) => one == other,
            _ => false,
        }),
{
    match (left, right) {
        (Value::U256(one), Value::U256(other)) => {
            Term::lemma_two(
                Term::Scalar(0, one.hi as int),
                Term::Scalar(0, one.lo as int),
                Term::Scalar(0, other.hi as int),
                Term::Scalar(0, other.lo as int),
            );
        },
        (Value::Address(one), Value::Address(other)) => lemma_one_address(one, other),
        (Value::Key(one), Value::Key(other)) => {
            lemma_one_address(one.owner, other.owner);
            Term::lemma_two(
                one.owner.term(),
                Term::Bytes(0, one.local.0@),
                other.owner.term(),
                Term::Bytes(0, other.local.0@),
            );
        },
        (Value::Bucket { resource, content }, Value::Bucket { resource: of, content: carried }) => {
            lemma_one_address(resource.as_address(), of.as_address());
            Term::lemma_two(
                resource.as_address().term(),
                content.term(),
                of.as_address().term(),
                carried.term(),
            );
        },
        (Value::Tuple(one), Value::Tuple(other)) => lemma_one_values(one@, other@),
        (Value::List(one), Value::List(other)) => lemma_one_values(one@, other@),
        _ => {},
    }
}

/// Whether two runs hold the same values in the same order.
pub open spec fn one_values(left: Seq<Value>, right: Seq<Value>) -> bool {
    &&& left.len() == right.len()
    &&& forall|i: int| 0 <= i < left.len() ==> (#[trigger] left[i]).term() == right[i].term()
}

/// Two runs of values have one term each for each exactly where they hold
/// the same values.
proof fn lemma_one_values(left: Seq<Value>, right: Seq<Value>)
    ensures
        (Value::terms(left) == Value::terms(right)) == one_values(left, right),
{
    let here = Value::terms(left);
    let there = Value::terms(right);
    assert(here.len() == left.len());
    assert(there.len() == right.len());
    if here == there {
        assert forall|i: int| 0 <= i < left.len() implies (#[trigger] left[i]).term()
            == right[i].term() by {
            assert(here[i] == there[i]);
        }
    } else if one_values(left, right) {
        assert forall|i: int| 0 <= i < here.len() implies here[i] == there[i] by {
            assert(left[i].term() == right[i].term());
        }
        assert(here =~= there);
    }
}

/// Two addresses have one term exactly where they are one.
proof fn lemma_one_address(left: Address, right: Address)
    ensures
        left.term() == right.term() <==> left == right,
{
    Term::lemma_two(
        Term::Bytes(0, left.body@),
        Term::Scalar(0, left.class.number() as int),
        Term::Bytes(0, right.body@),
        Term::Scalar(0, right.class.number() as int),
    );
    if left.body@ == right.body@ {
        assert(left.body =~= right.body);
    }
}

/// Two layouts are the same exactly where they take one form, and agree on
/// every width, name and discriminant, and on the layouts they are made of
/// in their places.
#[verifier::rlimit(60)]
pub proof fn law_layouts_are_told_apart(left: TypeShape, right: TypeShape)
    ensures
        left.term() == right.term() <==> (match (left, right) {
            (TypeShape::Bool, TypeShape::Bool) => true,
            (TypeShape::U8, TypeShape::U8) => true,
            (TypeShape::U16, TypeShape::U16) => true,
            (TypeShape::U32, TypeShape::U32) => true,
            (TypeShape::U64, TypeShape::U64) => true,
            (TypeShape::U128, TypeShape::U128) => true,
            (TypeShape::I8, TypeShape::I8) => true,
            (TypeShape::I16, TypeShape::I16) => true,
            (TypeShape::I32, TypeShape::I32) => true,
            (TypeShape::I64, TypeShape::I64) => true,
            (TypeShape::I128, TypeShape::I128) => true,
            (TypeShape::Text, TypeShape::Text) => true,
            (TypeShape::ByteArray(one), TypeShape::ByteArray(other)) => one == other,
            (TypeShape::List(one), TypeShape::List(other)) => one.term() == other.term(),
            (TypeShape::Distinct(one), TypeShape::Distinct(other)) => one.term() == other.term(),
            (TypeShape::Pairs { key, value }, TypeShape::Pairs { key: by, value: held }) => {
                key.term() == by.term() && value.term() == held.term()
            },
            (TypeShape::Maybe(one), TypeShape::Maybe(other)) => one.term() == other.term(),
            (TypeShape::Tuple(one), TypeShape::Tuple(other)) => one@.len() == other@.len()
                && forall|i: int|
                0 <= i < one@.len() ==> (#[trigger] one@[i]).term() == other@[i].term(),
            (TypeShape::Struct(one), TypeShape::Struct(other)) => one@.len() == other@.len()
                && forall|i: int|
                0 <= i < one@.len() ==> (#[trigger] one@[i]).name@ == other@[i].name@
                    && one@[i].shape.term() == other@[i].shape.term(),
            (TypeShape::Enum(one), TypeShape::Enum(other)) => one@.len() == other@.len()
                && forall|i: int|
                0 <= i < one@.len() ==> (#[trigger] one@[i]).name@ == other@[i].name@
                    && one@[i].discriminant == other@[i].discriminant && one@[i].content.term()
                    == other@[i].content.term(),
            (TypeShape::Ref(one), TypeShape::Ref(other)) => one@ == other@,
            _ => false,
        }),
{
    match (left, right) {
        (TypeShape::List(one), TypeShape::List(other)) => {
            Term::lemma_one(one.term(), other.term());
        },
        (TypeShape::Distinct(one), TypeShape::Distinct(other)) => {
            Term::lemma_one(one.term(), other.term());
        },
        (TypeShape::Maybe(one), TypeShape::Maybe(other)) => {
            Term::lemma_one(one.term(), other.term());
        },
        (TypeShape::Pairs { key, value }, TypeShape::Pairs { key: by, value: held }) => {
            Term::lemma_two(key.term(), value.term(), by.term(), held.term());
        },
        (TypeShape::Tuple(one), TypeShape::Tuple(other)) => {
            let here = TypeShape::terms(one@);
            let there = TypeShape::terms(other@);
            assert(here.len() == one@.len() && there.len() == other@.len());
            if here == there {
                assert forall|i: int| 0 <= i < one@.len() implies (#[trigger] one@[i]).term()
                    == other@[i].term() by {
                    assert(here[i] == there[i]);
                }
            } else if one@.len() == other@.len() && forall|i: int|
                0 <= i < one@.len() ==> (#[trigger] one@[i]).term() == other@[i].term() {
                assert(here =~= there);
            }
        },
        (TypeShape::Struct(one), TypeShape::Struct(other)) => {
            let here = ShapeField::terms(one@);
            let there = ShapeField::terms(other@);
            assert(here.len() == one@.len() && there.len() == other@.len());
            assert forall|i: int| 0 <= i < one@.len() && i < other@.len() implies (here[i]
                == there[i]) == (#[trigger] one@[i].name@ == other@[i].name@
                && one@[i].shape.term() == other@[i].shape.term()) by {
                Term::lemma_two(
                    Term::Text(0, one@[i].name@),
                    one@[i].shape.term(),
                    Term::Text(0, other@[i].name@),
                    other@[i].shape.term(),
                );
            }
            if here == there {
                assert forall|i: int| 0 <= i < one@.len() implies (#[trigger] one@[i]).name@
                    == other@[i].name@ && one@[i].shape.term() == other@[i].shape.term() by {
                    assert(here[i] == there[i]);
                    assert(one@[i].name@ == one@[i].name@);
                }
            } else if one@.len() == other@.len() && forall|i: int|
                0 <= i < one@.len() ==> (#[trigger] one@[i]).name@ == other@[i].name@
                    && one@[i].shape.term() == other@[i].shape.term() {
                assert forall|i: int| 0 <= i < here.len() implies here[i] == there[i] by {
                    assert(one@[i].name@ == other@[i].name@);
                }
                assert(here =~= there);
            }
        },
        (TypeShape::Enum(one), TypeShape::Enum(other)) => {
            let here = ShapeVariant::terms(one@);
            let there = ShapeVariant::terms(other@);
            assert(here.len() == one@.len() && there.len() == other@.len());
            assert forall|i: int| 0 <= i < one@.len() && i < other@.len() implies (here[i]
                == there[i]) == (#[trigger] one@[i].name@ == other@[i].name@
                && one@[i].discriminant == other@[i].discriminant && one@[i].content.term()
                == other@[i].content.term()) by {
                Term::lemma_three(
                    Term::Text(0, one@[i].name@),
                    Term::Scalar(0, one@[i].discriminant as int),
                    one@[i].content.term(),
                    Term::Text(0, other@[i].name@),
                    Term::Scalar(0, other@[i].discriminant as int),
                    other@[i].content.term(),
                );
            }
            if here == there {
                assert forall|i: int| 0 <= i < one@.len() implies (#[trigger] one@[i]).name@
                    == other@[i].name@ && one@[i].discriminant == other@[i].discriminant
                    && one@[i].content.term() == other@[i].content.term() by {
                    assert(here[i] == there[i]);
                    assert(one@[i].name@ == one@[i].name@);
                }
            } else if one@.len() == other@.len() && forall|i: int|
                0 <= i < one@.len() ==> (#[trigger] one@[i]).name@ == other@[i].name@
                    && one@[i].discriminant == other@[i].discriminant && one@[i].content.term()
                    == other@[i].content.term() {
                assert forall|i: int| 0 <= i < here.len() implies here[i] == there[i] by {
                    assert(one@[i].name@ == other@[i].name@);
                }
                assert(here =~= there);
            }
        },
        _ => {},
    }
}

} // verus!
