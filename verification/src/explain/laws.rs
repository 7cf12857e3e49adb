//! What holds of a rendering as a whole.
use vstd::prelude::*;

use crate::address::AddressClass;
use crate::admission::Refusal;
use crate::cache::MetadataCache;
use crate::dsl::Clause;
use crate::explain::names::{Lexicon, Row};
use crate::graph::ManifestGraph;
use crate::instance::InstanceRegistry;
use crate::intent::IntentTree;
use crate::presented::Claim;

verus! {

/// A top-level clause lists where the ones before it end, and what is
/// inside it right after it.
proof fn lemma_listed_place(clauses: Seq<Clause>, at: int, k: int)
    requires
        0 <= at < clauses.len(),
        0 <= k < clauses[at].walk().len(),
    ensures
        Clause::preorder(clauses.take(at)).len() + k < Clause::preorder(clauses).len(),
        Clause::preorder(clauses)[Clause::preorder(clauses.take(at)).len() + k]
            == clauses[at].walk()[k],
    decreases clauses.len(),
{
    let before = clauses.drop_last();
    if at == clauses.len() - 1 {
        assert(clauses.take(at) =~= before);
    } else {
        assert(before.take(at) =~= clauses.take(at));
        assert(before[at] == clauses[at]);
        lemma_listed_place(before, at, k);
    }
}

/// The number an exports line prints for a handle or a guard is the number
/// of the very line the binding covers, in the preorder a clause index
/// counts in: the clause itself, or for a handle on a loop the line of its
/// body the binding's site names.
pub proof fn law_a_binding_names_its_line(effects: Seq<Clause>, index: u32, site: Option<u32>)
    requires
        Clause::preorder(effects).len() <= u32::MAX,
        crate::explain::clause::listed_at(effects, index, site) is Some,
    ensures
        ({
            let line = crate::explain::clause::listed_at(effects, index, site)->0 as int;
            let clause = effects[index as int];
            &&& line < Clause::preorder(effects).len()
            &&& Clause::preorder(effects)[line] == (match (clause, site) {
                (Clause::ForEach { body, .. }, Some(at)) => body@[at as int],
                _ => clause,
            })
        }),
{
    let clause = effects[index as int];
    crate::explain::clause::lemma_walk_lists_itself(clause);
    lemma_listed_place(effects, index as int, 0);
    match (clause, site) {
        (Clause::ForEach { body, .. }, Some(at)) => {
            let within = Clause::preorder(body@.take(at as int)).len() as int;
            crate::explain::clause::lemma_walk_lists_itself(body@[at as int]);
            lemma_listed_place(body@, at as int, 0);
            lemma_listed_place(effects, index as int, 1 + within);
            assert(clause.walk()[1 + within] == Clause::preorder(body@)[within]);
        },
        _ => {},
    }
}

/// The first of a run of clauses list as no more lines than more of them.
proof fn lemma_listed_grows(clauses: Seq<Clause>, from: int, until: int)
    requires
        0 <= from <= until <= clauses.len(),
    ensures
        Clause::preorder(clauses.take(from)).len() <= Clause::preorder(clauses.take(until)).len(),
    decreases until - from,
{
    if from < until {
        assert(clauses.take(until).drop_last() =~= clauses.take(until - 1));
        lemma_listed_grows(clauses, from, until - 1);
    }
}

/// A clause number resolves from a clause on exactly where it is one of
/// the lines left.
proof fn lemma_listing_found(lexicon: Lexicon, effects: Seq<Clause>, from: int, clause: u32)
    requires
        Clause::preorder(effects).len() <= u32::MAX,
        0 <= from <= effects.len(),
        Clause::preorder(effects.take(from)).len() <= clause,
    ensures
        crate::explain::admission::clause_listing(lexicon, effects, from, clause) is Some == (
        clause < Clause::preorder(effects).len()),
    decreases effects.len() - from,
{
    assert(effects.take(effects.len() as int) =~= effects);
    if from < effects.len() {
        lemma_listed_grows(effects, from, effects.len() as int);
        lemma_listed_grows(effects, from + 1, effects.len() as int);
        if Clause::preorder(effects.take(from + 1)).len() <= clause {
            lemma_listing_found(lexicon, effects, from + 1, clause);
        }
    }
}

/// A clause number in a refusal resolves to a listing exactly where the
/// callee's declaration has a clause of that number.
pub proof fn law_a_clause_number_resolves(lexicon: Lexicon, effects: Seq<Clause>, clause: u32)
    requires
        Clause::preorder(effects).len() <= u32::MAX,
    ensures
        crate::explain::admission::clause_listing(lexicon, effects, 0, clause) is Some == (clause
            < Clause::preorder(effects).len()),
{
    assert(effects.take(0) =~= Seq::empty());
    lemma_listing_found(lexicon, effects, 0, clause);
}

/// Whether the row at a place answers to a kind and a material.
pub open spec fn answers_at(
    census: Seq<Row>,
    at: int,
    kind: Seq<char>,
    material: Seq<char>,
) -> bool {
    0 <= at < census.len() && census[at].kind == kind && census[at].material == material
}

/// A count past nothing is of a row that is there.
proof fn lemma_one_answers(census: Seq<Row>, kind: Seq<char>, material: Seq<char>)
    ensures
        crate::explain::names::answering(census, kind, material) > 0 <==> exists|i: int|
            answers_at(census, i, kind, material),
    decreases census.len(),
{
    if census.len() > 0 {
        let before = census.drop_last();
        lemma_one_answers(before, kind, material);
        if exists|i: int| answers_at(before, i, kind, material) {
            let i = choose|i: int| answers_at(before, i, kind, material);
            assert(answers_at(census, i, kind, material));
        }
        if exists|i: int| answers_at(census, i, kind, material) {
            let i = choose|i: int| answers_at(census, i, kind, material);
            if i < before.len() {
                assert(answers_at(before, i, kind, material));
            }
        }
        if census.last().kind == kind && census.last().material == material {
            assert(answers_at(census, census.len() - 1, kind, material));
        }
    }
}

/// A count past one is of two rows that are there.
proof fn lemma_two_answer(census: Seq<Row>, kind: Seq<char>, material: Seq<char>)
    ensures
        crate::explain::names::answering(census, kind, material) > 1 <==> exists|i: int, j: int|
            i < j && #[trigger] answers_at(census, i, kind, material) && #[trigger] answers_at(
                census,
                j,
                kind,
                material,
            ),
    decreases census.len(),
{
    if census.len() > 0 {
        let before = census.drop_last();
        let last = census.len() - 1;
        lemma_two_answer(before, kind, material);
        lemma_one_answers(before, kind, material);
        if crate::explain::names::answering(before, kind, material) > 1 {
            let (i, j) = choose|i: int, j: int|
                i < j && #[trigger] answers_at(before, i, kind, material) && #[trigger] answers_at(
                    before,
                    j,
                    kind,
                    material,
                );
            assert(answers_at(census, i, kind, material));
            assert(answers_at(census, j, kind, material));
        } else if crate::explain::names::answering(census, kind, material) > 1 {
            let i = choose|i: int| answers_at(before, i, kind, material);
            assert(answers_at(census, i, kind, material));
            assert(answers_at(census, last, kind, material));
        }
        if exists|i: int, j: int|
            i < j && #[trigger] answers_at(census, i, kind, material) && #[trigger] answers_at(
                census,
                j,
                kind,
                material,
            ) {
            let (i, j) = choose|i: int, j: int|
                i < j && #[trigger] answers_at(census, i, kind, material) && #[trigger] answers_at(
                    census,
                    j,
                    kind,
                    material,
                );
            assert(answers_at(before, i, kind, material));
            if j < last {
                assert(answers_at(before, j, kind, material));
            }
        }
    }
}

/// A mention leaves its grants to the resources table exactly where one
/// line of the table answers to its kind and material: where two
/// derivations share them, every mention stays fully spelled.
pub proof fn law_a_tabled_mention_names_one_line(
    lexicon: Lexicon,
    kind: Seq<char>,
    material: Seq<char>,
)
    ensures
        lexicon.is_tabled(kind, material) <==> (exists|i: int|
            answers_at(lexicon.census, i, kind, material)) && !(exists|i: int, j: int|
            i < j && #[trigger] answers_at(lexicon.census, i, kind, material)
                && #[trigger] answers_at(lexicon.census, j, kind, material)),
{
    lemma_one_answers(lexicon.census, kind, material);
    lemma_two_answer(lexicon.census, kind, material);
}

/// What a class is called holds no colon, and tells it from every other.
proof fn lemma_class_label(left: AddressClass, right: AddressClass)
    ensures
        forall|i: int|
            0 <= i < crate::explain::literal::class_label(left).len()
                ==> #[trigger] crate::explain::literal::class_label(left)[i] != ':',
        crate::explain::literal::class_label(left) == crate::explain::literal::class_label(right)
            ==> left == right,
{
    reveal_strlit("principal");
    reveal_strlit("component");
    reveal_strlit("package");
    reveal_strlit("resource");
    reveal_strlit("restricted");
    reveal_strlit("native");
    let one = crate::explain::literal::class_label(left);
    let two = crate::explain::literal::class_label(right);
    if one == two {
        assert(one.len() == two.len());
        assert(one[0] == two[0]);
    }
}

/// What stands before a colon and what stands after it can be read back.
proof fn lemma_split_at_colon(
    left: Seq<char>,
    left_rest: Seq<char>,
    right: Seq<char>,
    right_rest: Seq<char>,
)
    requires
        left + ":"@ + left_rest == right + ":"@ + right_rest,
        forall|i: int| 0 <= i < left.len() ==> left[i] != ':',
        forall|i: int| 0 <= i < right.len() ==> right[i] != ':',
    ensures
        left == right,
        left_rest == right_rest,
{
    reveal_strlit(":");
    let one = left + ":"@ + left_rest;
    let two = right + ":"@ + right_rest;
    assert(one[left.len() as int] == ':');
    assert(two[right.len() as int] == ':');
    if left.len() < right.len() {
        assert(two[left.len() as int] == right[left.len() as int]);
    }
    if right.len() < left.len() {
        assert(one[right.len() as int] == left[right.len() as int]);
    }
    assert(one.take(left.len() as int) =~= left);
    assert(two.take(right.len() as int) =~= right);
    assert(one.skip(left.len() as int + 1) =~= left_rest);
    assert(two.skip(right.len() as int + 1) =~= right_rest);
}

/// Two claims render alike exactly where they are one claim: no rendering
/// drops the instance, and none cuts the address short.
pub proof fn law_claims_render_apart(left: Claim, right: Claim)
    ensures
        crate::explain::literal::claim_spelling(left) == crate::explain::literal::claim_spelling(
            right,
        ) <==> left.subject == right.subject && left.instance == right.instance,
{
    if crate::explain::literal::claim_spelling(left) == crate::explain::literal::claim_spelling(
        right,
    ) {
        let here = left.subject.bytes();
        let there = right.subject.bytes();
        let left_bytes = crate::text::hex_text(here);
        let right_bytes = crate::text::hex_text(there);
        let left_end = crate::explain::literal::instance_spelling(left);
        let right_end = crate::explain::literal::instance_spelling(right);
        let left_class = crate::explain::literal::class_label(left.subject.class);
        let right_class = crate::explain::literal::class_label(right.subject.class);
        lemma_class_label(left.subject.class, right.subject.class);
        lemma_class_label(right.subject.class, left.subject.class);
        assert(crate::explain::literal::claim_spelling(left) =~= left_class + ":"@ + (left_bytes
            + left_end));
        assert(crate::explain::literal::claim_spelling(right) =~= right_class + ":"@ + (
        right_bytes + right_end));
        lemma_split_at_colon(
            left_class,
            left_bytes + left_end,
            right_class,
            right_bytes + right_end,
        );
        crate::text::lemma_hex_text(here, there);
        crate::text::lemma_hex_text(there, here);
        assert((left_bytes + left_end).take(64) =~= left_bytes);
        assert((right_bytes + right_end).take(64) =~= right_bytes);
        assert((left_bytes + left_end).skip(64) =~= left_end);
        assert((right_bytes + right_end).skip(64) =~= right_end);
        assert(here.take(31) =~= left.subject.body@);
        assert(there.take(31) =~= right.subject.body@);
        assert(left.subject.body =~= right.subject.body);
        reveal_strlit(", instance ");
        match (left.instance, right.instance) {
            (Some(one), Some(two)) => {
                assert(left_end.skip(11) =~= crate::text::decimal_text(one as nat));
                assert(right_end.skip(11) =~= crate::text::decimal_text(two as nat));
                crate::text::lemma_decimal_text(one as nat, two as nat);
            },
            (Some(_), None) => {
                assert(left_end.len() > 0);
            },
            (None, Some(_)) => {
                assert(right_end.len() > 0);
            },
            (None, None) => {},
        }
    }
}

/// A refusal at admission leads with its own sentence, and is no more than
/// that sentence where it points at no node.
pub proof fn law_a_refusal_leads_with_its_sentence(
    intents: Seq<ManifestGraph>,
    order: Option<Seq<(usize, usize)>>,
    instances: InstanceRegistry,
    packages: MetadataCache,
    refusal: Refusal,
)
    ensures
        refusal.sentence@.is_prefix_of(
            crate::explain::admission::placed_spelling(
                intents,
                order,
                instances,
                packages,
                refusal,
            ),
        ),
        refusal.at.node is None ==> crate::explain::admission::placed_spelling(
            intents,
            order,
            instances,
            packages,
            refusal,
        ) == refusal.sentence@,
{
}

/// A tree of one intent that declares no socket is explained as its graph
/// is, whatever order it is read with.
pub proof fn law_a_lone_intent_reads_as_its_graph(
    tree: IntentTree,
    order: Option<Seq<(usize, usize)>>,
    instances: InstanceRegistry,
    packages: MetadataCache,
    refusal: Refusal,
)
    requires
        tree.root.members@.len() == 0,
        tree.root.sockets@.len() == 0,
    ensures
        crate::explain::admission::placed_spelling(
            crate::explain::admission::graphs_of(tree.all_intents()),
            crate::explain::admission::flattened_order(tree, order),
            instances,
            packages,
            refusal,
        ) == crate::explain::admission::placed_spelling(
            seq![tree.root.graph],
            None,
            instances,
            packages,
            refusal,
        ),
{
    assert(tree.root.all_signed() =~= Seq::empty());
    assert(tree.all_intents() =~= seq![tree.root]);
    assert(crate::explain::admission::graphs_of(tree.all_intents()) =~= seq![tree.root.graph]);
}

} // verus!
