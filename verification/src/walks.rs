//! What a walk of a declaration reaches.
use vstd::prelude::*;

use crate::dsl::{Clause, Expr, SlotRef};
use crate::rule::Rule;

verus! {

/// A walk lists every clause right after what the clauses before it list,
/// a loop's body right after the loop, and the next clause right after
/// that: nothing is left out and nothing is listed twice.
pub proof fn law_a_walk_lists_every_clause_in_order(clauses: Seq<Clause>, i: int)
    requires
        0 <= i < clauses.len(),
    ensures
        ({
            let flat = Clause::preorder(clauses);
            let at = Clause::preorder(clauses.take(i)).len() as int;
            let after = Clause::preorder(clauses.take(i + 1)).len() as int;
            &&& at < after <= flat.len()
            &&& flat[at] == clauses[i]
            &&& match clauses[i] {
                Clause::ForEach { body, .. } => flat.subrange(at + 1, after) == Clause::preorder(
                    body@,
                ),
                _ => after == at + 1,
            }
            &&& i + 1 == clauses.len() ==> after == flat.len()
        }),
{
    lemma_walk_grows(clauses, i + 1);
    let upto = clauses.take(i + 1);
    assert(upto.drop_last() =~= clauses.take(i));
    assert(upto.last() == clauses[i]);
    let flat = Clause::preorder(clauses);
    let at = Clause::preorder(clauses.take(i)).len() as int;
    let after = Clause::preorder(upto).len() as int;
    assert(Clause::preorder(upto) == Clause::preorder(clauses.take(i)) + clauses[i].walk());
    assert(Clause::preorder(upto)[at] == clauses[i].walk()[0]);
    match clauses[i] {
        Clause::ForEach { body, .. } => {
            assert(flat.subrange(at + 1, after) =~= Clause::preorder(upto).subrange(at + 1, after));
            assert(Clause::preorder(upto).subrange(at + 1, after) =~= Clause::preorder(body@));
        },
        _ => {},
    }
    if i + 1 == clauses.len() {
        assert(upto =~= clauses);
    }
}

/// What a walk of the first clauses lists, the walk of all of them lists
/// first.
proof fn lemma_walk_grows(clauses: Seq<Clause>, until: int)
    requires
        0 <= until <= clauses.len(),
    ensures
        Clause::preorder(clauses.take(until)).len() <= Clause::preorder(clauses).len(),
        forall|k: int|
            0 <= k < Clause::preorder(clauses.take(until)).len() ==> #[trigger] Clause::preorder(
                clauses.take(until),
            )[k] == Clause::preorder(clauses)[k],
    decreases clauses.len(),
{
    if until == clauses.len() {
        assert(clauses.take(until) =~= clauses);
    } else {
        let before = clauses.drop_last();
        lemma_walk_grows(before, until);
        assert(before.take(until) =~= clauses.take(until));
    }
}

/// A threshold's leaves are its branches' leaves, and nothing else.
pub proof fn law_a_rule_asks_what_its_branches_ask<L>(rules: Seq<Rule<L>>, leaf: L)
    ensures
        Rule::leaves_of(rules).contains(leaf) <==> exists|i: int|
            0 <= i < rules.len() && (#[trigger] rules[i]).all_leaves().contains(leaf),
        forall|one: L| #[trigger] Rule::Require(one).all_leaves() == seq![one],
        forall|count: u32, held: Vec<Rule<L>>|
            (#[trigger] (Rule::CountOf { count, rules: held }).all_leaves()) == Rule::leaves_of(
                held@,
            ),
    decreases rules.len(),
{
    if rules.len() > 0 {
        let before = rules.drop_last();
        law_a_rule_asks_what_its_branches_ask(before, leaf);
        let head = Rule::leaves_of(before);
        let tail = rules.last().all_leaves();
        let all = Rule::leaves_of(rules);
        if all.contains(leaf) {
            let k = choose|k: int| 0 <= k < all.len() && all[k] == leaf;
            if k < head.len() {
                assert(head[k] == leaf);
                assert(head.contains(leaf));
                let i = choose|i: int|
                    0 <= i < before.len() && (#[trigger] before[i]).all_leaves().contains(leaf);
                assert(rules[i] == before[i]);
            } else {
                assert(tail[k - head.len()] == leaf);
                assert(tail.contains(leaf));
                assert(rules[rules.len() - 1] == rules.last());
            }
        }
        if exists|i: int|
            0 <= i < rules.len() && (#[trigger] rules[i]).all_leaves().contains(leaf) {
            let i = choose|i: int|
                0 <= i < rules.len() && (#[trigger] rules[i]).all_leaves().contains(leaf);
            if i < before.len() {
                assert(before[i] == rules[i]);
                assert(head.contains(leaf));
                let k = choose|k: int| 0 <= k < head.len() && head[k] == leaf;
                assert(all[k] == leaf);
            } else {
                let k = choose|k: int| 0 <= k < tail.len() && tail[k] == leaf;
                assert(all[head.len() + k] == leaf);
            }
        }
    }
}

/// An expression reads what the caller supplies exactly where it is an
/// argument, or something it is made of does.
pub proof fn law_reading_an_argument_is_inherited(expr: Expr)
    ensures
        match expr {
            Expr::Arg(_) => expr.reads_argument(),
            Expr::Literal(_) | Expr::Config(_) | Expr::Binding(_) => !expr.reads_argument(),
            Expr::SelfAddr | Expr::SelfRecord => !expr.reads_argument(),
            Expr::FreshId { .. } | Expr::FreshKey { .. } => !expr.reads_argument(),
            Expr::Field(inner, _) => expr.reads_argument() == inner.reads_argument(),
            Expr::ResourceOf(inner) | Expr::IdsOf(inner) => expr.reads_argument()
                == inner.reads_argument(),
            Expr::Len(inner) | Expr::Only(inner) | Expr::Not(inner) => expr.reads_argument()
                == inner.reads_argument(),
            Expr::List(parts) | Expr::Tuple(parts) => expr.reads_argument() == any_reads(parts@),
            Expr::SelfResource { material, .. } => expr.reads_argument() == any_reads(material@),
            Expr::NfBucket { resource, ids } => expr.reads_argument() == (resource.reads_argument()
                || ids.reads_argument()),
            Expr::Lookup { map, key } | Expr::Contains { map, key } => expr.reads_argument() == (
            map.reads_argument() || key.reads_argument()),
            Expr::ChildKey { owner, slot, material } => expr.reads_argument() == (
            owner.reads_argument() || (slot matches SlotRef::Reached(named)
                && named.reads_argument()) || any_reads(material@)),
            Expr::OrderKey { owner, material, .. } => expr.reads_argument() == (
            owner.reads_argument() || any_reads(material@)),
            Expr::Pack { hi, lo } => expr.reads_argument() == (hi.reads_argument()
                || lo.reads_argument()),
            Expr::Add(one, other) | Expr::And(one, other) | Expr::Or(one, other) => {
                expr.reads_argument() == (one.reads_argument() || other.reads_argument())
            },
            Expr::Eq(one, other) | Expr::Lt(one, other) => expr.reads_argument() == (
            one.reads_argument() || other.reads_argument()),
            Expr::If { cond, chosen, otherwise } => expr.reads_argument() == (
            cond.reads_argument() || chosen.reads_argument() || otherwise.reads_argument()),
        },
{
    reveal(Expr::inside);
    let inside = expr.inside();
    assert(expr.reads_argument() == (expr is Arg || any_reads(inside)));
    match expr {
        Expr::ChildKey { owner, slot, material } => {
            lemma_any_reads(seq![*owner] + slot.naming(), material@);
            lemma_any_reads(seq![*owner], slot.naming());
            lemma_one_reads(*owner);
            match slot {
                SlotRef::Reached(named) => lemma_one_reads(*named),
                _ => {},
            }
        },
        Expr::OrderKey { owner, material, .. } => {
            lemma_any_reads(seq![*owner], material@);
            lemma_one_reads(*owner);
        },
        Expr::List(_) | Expr::Tuple(_) | Expr::SelfResource { .. } => {},
        _ => {
            if inside.len() == 1 {
                lemma_one_reads(inside[0]);
                assert(inside =~= seq![inside[0]]);
            } else if inside.len() == 2 {
                lemma_any_reads(seq![inside[0]], seq![inside[1]]);
                lemma_one_reads(inside[0]);
                lemma_one_reads(inside[1]);
                assert(inside =~= seq![inside[0]] + seq![inside[1]]);
            } else if inside.len() == 3 {
                lemma_any_reads(seq![inside[0]] + seq![inside[1]], seq![inside[2]]);
                lemma_any_reads(seq![inside[0]], seq![inside[1]]);
                lemma_one_reads(inside[0]);
                lemma_one_reads(inside[1]);
                lemma_one_reads(inside[2]);
                assert(inside =~= seq![inside[0]] + seq![inside[1]] + seq![inside[2]]);
            }
        },
    }
}

/// Whether any expression of a run reads what the caller supplies.
pub open spec fn any_reads(exprs: Seq<Expr>) -> bool {
    exists|i: int| 0 <= i < exprs.len() && (#[trigger] exprs[i]).reads_argument()
}

/// A run of one reads where it does.
proof fn lemma_one_reads(expr: Expr)
    ensures
        any_reads(seq![expr]) == expr.reads_argument(),
{
    assert(seq![expr][0] == expr);
}

/// A run in two parts reads where either does.
proof fn lemma_any_reads(left: Seq<Expr>, right: Seq<Expr>)
    ensures
        any_reads(left + right) == (any_reads(left) || any_reads(right)),
{
    let whole = left + right;
    if any_reads(left) {
        let i = choose|i: int| 0 <= i < left.len() && (#[trigger] left[i]).reads_argument();
        assert(whole[i] == left[i]);
    }
    if any_reads(right) {
        let i = choose|i: int| 0 <= i < right.len() && (#[trigger] right[i]).reads_argument();
        assert(whole[left.len() + i] == right[i]);
    }
    if any_reads(whole) {
        let i = choose|i: int| 0 <= i < whole.len() && (#[trigger] whole[i]).reads_argument();
        if i < left.len() {
            assert(left[i] == whole[i]);
        } else {
            assert(right[i - left.len()] == whole[i]);
        }
    }
}

} // verus!
