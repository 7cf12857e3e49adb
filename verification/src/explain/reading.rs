//! What a declaration's rendering says of the declaration: each part of a
//! clause, a rule, an expression or a method that a reader is owed stands
//! in the text, under the words that say what it is.
use vstd::prelude::*;

use crate::dsl::{Clause, Expr, RuleExpr, RuleLeaf, SlotRef, TargetExpr};
use crate::effect::Presence;
use crate::explain::names::{Lexicon, ATOM, SELECT};
use crate::resource::{GrantSubject, GrantedBehaviour};
use crate::rule::Rule;
use crate::signature::{AbiParam, MethodSignature, Totality};
use crate::types::Value;

verus! {

/// A condition reads as what it requires: a claim, the rule stored at a
/// cell, or that a target is there, is not, or either.
pub proof fn law_a_condition_reads_as_it_requires(lexicon: Lexicon, leaf: RuleLeaf)
    ensures
        ({
            let text = lexicon.rule(Rule::Require(leaf));
            match leaf {
                RuleLeaf::Claim(claim) => text == "claim "@ + lexicon.expr(claim, ATOM as int),
                RuleLeaf::Stored { cell } => text == "the rule stored at "@ + lexicon.expr(
                    cell,
                    ATOM as int,
                ),
                RuleLeaf::Presence { target, expect } => {
                    &&& expect == Presence::Present ==> text == lexicon.target(*target)
                        + " is present"@
                    &&& expect == Presence::Absent ==> text == lexicon.target(*target)
                        + " is absent"@
                    &&& expect == Presence::Either ==> text == lexicon.target(*target)
                        + " is there or not"@
                },
            }
        }),
{
    reveal_strlit(" is ");
    reveal_strlit("present");
    reveal_strlit("absent");
    reveal_strlit("there or not");
    reveal_strlit(" is present");
    reveal_strlit(" is absent");
    reveal_strlit(" is there or not");
    assert(" is "@ + "present"@ =~= " is present"@);
    assert(" is "@ + "absent"@ =~= " is absent"@);
    assert(" is "@ + "there or not"@ =~= " is there or not"@);
    match leaf {
        RuleLeaf::Presence { target, expect } => {
            let lead = lexicon.target(*target);
            assert(lead + " is "@ + "present"@ =~= lead + (" is "@ + "present"@));
            assert(lead + " is "@ + "absent"@ =~= lead + (" is "@ + "absent"@));
            assert(lead + " is "@ + "there or not"@ =~= lead + (" is "@ + "there or not"@));
        },
        _ => {},
    }
}

/// A threshold says how many of its rules it asks for, and shows each of
/// them.
pub proof fn law_a_threshold_reads_as_its_rules(
    lexicon: Lexicon,
    count: u32,
    rules: Vec<RuleExpr>,
    i: int,
)
    requires
        0 <= i < rules@.len(),
    ensures
        (crate::text::decimal_text(count as nat) + " of ("@).is_prefix_of(
            lexicon.rule(Rule::CountOf { count, rules }),
        ),
        crate::explain::content::shows(
            lexicon.rule(Rule::CountOf { count, rules }),
            lexicon.rule(rules@[i]),
        ),
{
    let parts = lexicon.rules(rules@);
    let list = crate::text::joined_text(parts, ", "@);
    let lead = crate::text::decimal_text(count as nat) + " of ("@;
    let whole = lexicon.rule(Rule::<RuleLeaf>::CountOf { count, rules });
    assert(whole =~= lead + list + ")"@);
    assert(parts[i] == lexicon.rule(rules@[i]));
    crate::explain::content::lemma_list_shows(parts, ", "@, i);
    crate::explain::content::lemma_shows(lead, list, ")"@);
    crate::explain::content::lemma_shows_within(whole, list, parts[i]);
}

/// A target reads as what it reaches: a leaf by its key, an entry by its
/// collection and where it sits, an interval by its collection, its two
/// ends and the most it may touch, the ends left out only where they are
/// the whole order space.
#[verifier::rlimit(60)]
pub proof fn law_a_target_reads_as_it_reaches(lexicon: Lexicon, target: TargetExpr)
    ensures
        ({
            let text = lexicon.target(target);
            match target {
                TargetExpr::Point(key) => text == lexicon.expr(key, ATOM as int),
                TargetExpr::Entry { owner, collection, material, order } => {
                    &&& (lexicon.expr(owner, ATOM as int) + "."@ + lexicon.slot(
                        collection,
                    )).is_prefix_of(text)
                    &&& (" at "@ + lexicon.expr(order, ATOM as int)).is_suffix_of(text)
                    &&& crate::explain::content::shows(text, lexicon.material(material@))
                },
                TargetExpr::Range { owner, collection, material, lo, hi, cap } => {
                    &&& (lexicon.expr(owner, ATOM as int) + "."@ + lexicon.slot(
                        collection,
                    )).is_prefix_of(text)
                    &&& crate::explain::content::shows(text, lexicon.material(material@))
                    &&& (", at most "@ + lexicon.expr(cap, ATOM as int)
                        + " entries"@).is_suffix_of(text)
                    &&& lo == Expr::Literal(Value::U64(0)) && hi == Expr::Literal(
                        Value::U64(u64::MAX),
                    ) ==> crate::explain::content::shows(text, " over the whole order space"@)
                    &&& lo == Expr::Literal(Value::U128(0)) && hi == Expr::Literal(
                        Value::U128(u128::MAX),
                    ) ==> crate::explain::content::shows(text, " over the whole order space"@)
                    &&& (lo matches Expr::Literal(Value::U64(number)) && number > 0)
                        || (hi matches Expr::Literal(Value::U64(number)) && number < u64::MAX)
                        || (lo matches Expr::Literal(Value::U128(number)) && number > 0)
                        || (hi matches Expr::Literal(Value::U128(number)) && number < u128::MAX)
                        || lo is Arg || hi is Arg ==> crate::explain::content::shows(
                        text,
                        " over "@ + lexicon.expr(lo, ATOM as int) + "..="@ + lexicon.expr(
                            hi,
                            ATOM as int,
                        ),
                    )
                },
            }
        }),
{
    let text = lexicon.target(target);
    reveal_strlit(" over ");
    reveal_strlit("the whole order space");
    reveal_strlit(" over the whole order space");
    assert(" over "@ + "the whole order space"@ =~= " over the whole order space"@);
    match target {
        TargetExpr::Point(_) => {},
        TargetExpr::Entry { owner, collection, material, order } => {
            let head = lexicon.expr(owner, ATOM as int) + "."@ + lexicon.slot(collection);
            let keyed = lexicon.material(material@);
            let tail = " at "@ + lexicon.expr(order, ATOM as int);
            assert(text =~= head + keyed + tail);
            crate::explain::content::lemma_shows(head, keyed, tail);
        },
        TargetExpr::Range { owner, collection, material, lo, hi, cap } => {
            let head = lexicon.expr(owner, ATOM as int) + "."@ + lexicon.slot(collection);
            let keyed = lexicon.material(material@);
            let tail = ", at most "@ + lexicon.expr(cap, ATOM as int) + " entries"@;
            let span = if crate::explain::clause::is_bottom(lo) && crate::explain::clause::is_top(
                hi,
            ) {
                " over the whole order space"@
            } else {
                " over "@ + lexicon.expr(lo, ATOM as int) + "..="@ + lexicon.expr(hi, ATOM as int)
            };
            assert(text =~= head + keyed + (span + tail));
            assert(text =~= (head + keyed) + span + tail);
            crate::explain::content::lemma_shows(head, keyed, span + tail);
            crate::explain::content::lemma_shows(head + keyed, span, tail);
        },
    }
}

/// What a clause says after its number and the judgment it stands under.
pub open spec fn said_after(lexicon: Lexicon, clause: Clause) -> Seq<char> {
    match clause {
        Clause::Effect { target, mode, denomination, .. } => lexicon.mode(
            mode,
            target,
            denomination is Some,
        ) + " "@ + lexicon.target(target),
        Clause::ForEach { list, .. } => "for each of "@ + lexicon.expr(list, ATOM as int) + "\n"@,
        Clause::Requires { rule, .. } => "requires "@ + lexicon.rule(rule) + "\n"@,
        Clause::Mints { claim, .. } => "proves "@ + lexicon.expr(claim, ATOM as int) + "\n"@,
    }
}

/// A clause reads as its number, then the judgment it is declared under
/// where it stands under one, then what it says: the mode and the target
/// of an access, the list of a loop, the rule of a condition, the claim of
/// a mint.
#[verifier::rlimit(60)]
pub proof fn law_a_clause_reads_as_it_declares(
    lexicon: Lexicon,
    clause: Clause,
    number: u32,
    pad: Seq<char>,
)
    ensures
        ({
            let numbered = pad + crate::text::right_text(
                crate::text::decimal_text(number as nat),
                3,
            ) + "  "@;
            let text = lexicon.clause(clause, number, pad);
            match crate::publish::faults::judgment_on(clause) {
                Some(judgment) => (numbered + ("when "@ + lexicon.expr(*judgment, SELECT as int)
                    + " → "@) + said_after(lexicon, clause)).is_prefix_of(text),
                None => (numbered + said_after(lexicon, clause)).is_prefix_of(text),
            }
        }),
{
    let numbered = pad + crate::text::right_text(crate::text::decimal_text(number as nat), 3)
        + "  "@;
    let text = lexicon.clause(clause, number, pad);
    let said = said_after(lexicon, clause);
    let judged = lexicon.guard(clause.condition());
    let lead = numbered + judged + said;
    assert(text.subrange(0, lead.len() as int) =~= lead);
    if clause.condition() is None {
        assert(lead =~= numbered + said);
    }
}

/// An access shows what it moves, unless its key already does, and the
/// behaviour it reaches a foreign prefix under, where it reaches one.
#[verifier::rlimit(60)]
pub proof fn law_an_access_shows_what_it_moves(
    lexicon: Lexicon,
    clause: Clause,
    number: u32,
    pad: Seq<char>,
)
    ensures
        clause matches Clause::Effect { target, denomination, reach, .. } ==> {
            let text = lexicon.clause(clause, number, pad);
            &&& reach matches Some(behaviour) ==> (", reaching under "@ + behaviour.label()
                + "\n"@).is_suffix_of(text)
            &&& denomination is Some && !key_shows(lexicon, target, *denomination->Some_0)
                ==> crate::explain::content::shows(
                text,
                lexicon.target(target) + " holding "@ + lexicon.expr(
                    *denomination->Some_0,
                    ATOM as int,
                ),
            )
            &&& reach is None && (denomination is None || key_shows(
                lexicon,
                target,
                *denomination->Some_0,
            )) ==> (lexicon.target(target) + "\n"@).is_suffix_of(text)
        },
{
    match clause {
        Clause::Effect { guard, target, mode, denomination, reach } => {
            let text = lexicon.clause(clause, number, pad);
            let head = pad + crate::text::right_text(
                crate::text::decimal_text(number as nat),
                3,
            ) + "  "@ + lexicon.guard(guard) + lexicon.mode(mode, target, denomination is Some)
                + " "@;
            let reached = match reach {
                Some(behaviour) => ", reaching under "@ + behaviour.label(),
                None => Seq::<char>::empty(),
            };
            let held = lexicon.held(target, denomination);
            assert(crate::explain::clause::shown_material(target) == keyed_by(target));
            assert(text =~= head + (lexicon.target(target) + held) + (reached + "\n"@));
            crate::explain::content::lemma_shows(
                head,
                lexicon.target(target) + held,
                reached + "\n"@,
            );
            if reach is Some {
                let tail = reached + "\n"@;
                assert(text.subrange(text.len() - tail.len(), text.len() as int) =~= tail);
            }
            if denomination is Some {
                let resource = *denomination->Some_0;
                if key_shows(lexicon, target, resource) {
                    let i = choose|i: int|
                        0 <= i < keyed_by(target).len() && lexicon.expr(
                            #[trigger] keyed_by(target)[i],
                            SELECT as int,
                        ) == lexicon.expr(resource, SELECT as int);
                    assert(crate::explain::clause::shown_material(target)[i] == keyed_by(
                        target,
                    )[i]);
                    assert(lexicon.is_restated(target, resource));
                } else {
                    assert(!lexicon.is_restated(target, resource));
                    assert(lexicon.target(target) + held =~= lexicon.target(target)
                        + " holding "@ + lexicon.expr(resource, ATOM as int));
                }
            }
            if held.len() == 0 && reach is None {
                let tail = lexicon.target(target) + "\n"@;
                assert(text.subrange(text.len() - tail.len(), text.len() as int) =~= tail);
            }
        },
        _ => {},
    }
}

/// Whether one of the terms a target is keyed by reads as a resource does.
pub open spec fn key_shows(lexicon: Lexicon, target: TargetExpr, resource: Expr) -> bool {
    exists|i: int|
        0 <= i < keyed_by(target).len() && lexicon.expr(
            #[trigger] keyed_by(target)[i],
            SELECT as int,
        ) == lexicon.expr(resource, SELECT as int)
}

/// What a target is keyed by, where its key shows it.
pub open spec fn keyed_by(target: TargetExpr) -> Seq<Expr> {
    match target {
        TargetExpr::Point(key) => if key is ChildKey {
            key->ChildKey_material@
        } else {
            Seq::empty()
        },
        TargetExpr::Entry { material, .. } => material@,
        TargetExpr::Range { material, .. } => material@,
    }
}

/// A loop shows each clause of its body, numbered on from its own line and
/// set in under it.
#[verifier::rlimit(60)]
pub proof fn law_a_loop_shows_its_body(
    lexicon: Lexicon,
    guard: Option<Box<Expr>>,
    list: Expr,
    body: Vec<Clause>,
    number: u32,
    pad: Seq<char>,
    i: int,
)
    requires
        0 <= i < body@.len(),
        number + 1 + Clause::preorder(body@.take(i)).len() <= u32::MAX,
    ensures
        crate::explain::content::shows(
            lexicon.clause(Clause::ForEach { guard, list, body }, number, pad),
            lexicon.clause(
                body@[i],
                (number + 1 + Clause::preorder(body@.take(i)).len()) as u32,
                pad + "  "@,
            ),
        ),
{
    let clause = Clause::ForEach { guard, list, body };
    let head = pad + crate::text::right_text(crate::text::decimal_text(number as nat), 3) + "  "@
        + lexicon.guard(guard) + "for each of "@ + lexicon.expr(list, ATOM as int) + "\n"@;
    let parts = lexicon.clauses(body@, (number + 1) as u32, pad + "  "@);
    let run = crate::text::run_on(parts);
    let whole = lexicon.clause(clause, number, pad);
    assert(whole =~= head + run + Seq::<char>::empty());
    crate::explain::content::lemma_shows(head, run, Seq::empty());
    crate::explain::content::lemma_run_shows(parts, i);
    crate::explain::content::lemma_shows_within(whole, run, parts[i]);
}

/// How tightly an expression binds: a choice the least, then either, both,
/// a comparison, a sum, a negation, and anything else the most.
pub open spec fn binds(expr: Expr) -> int {
    match expr {
        Expr::If { .. } => 0,
        Expr::Or(_, _) => 1,
        Expr::And(_, _) => 2,
        Expr::Eq(_, _) | Expr::Lt(_, _) | Expr::Contains { .. } => 3,
        Expr::Add(_, _) => 4,
        Expr::Not(_) => 5,
        _ => 6,
    }
}

/// An expression stands in brackets exactly where it binds less tightly
/// than its place does.
pub proof fn law_weaker_expressions_are_bracketed(lexicon: Lexicon, expr: Expr, place: int)
    ensures
        binds(expr) < place ==> lexicon.expr(expr, place) == "("@ + lexicon.expr(expr, 0) + ")"@,
        binds(expr) >= place ==> lexicon.expr(expr, place) == lexicon.expr(expr, 0),
{
}

/// An operator reads with what is on its left before it and what is on its
/// right after it, an operand in brackets where it binds less tightly, and
/// on the right of an operator that groups to the left, or on either side
/// of a comparison, where it binds no tighter.
pub proof fn law_operators_read_in_order(lexicon: Lexicon, left: Box<Expr>, right: Box<Expr>)
    ensures
        lexicon.expr(Expr::Add(left, right), 0) == lexicon.expr(*left, 4) + " + "@ + lexicon.expr(
            *right,
            5,
        ),
        lexicon.expr(Expr::And(left, right), 0) == lexicon.expr(*left, 2) + " and "@
            + lexicon.expr(*right, 3),
        lexicon.expr(Expr::Or(left, right), 0) == lexicon.expr(*left, 1) + " or "@ + lexicon.expr(
            *right,
            2,
        ),
        lexicon.expr(Expr::Eq(left, right), 0) == lexicon.expr(*left, 4) + " == "@ + lexicon.expr(
            *right,
            4,
        ),
        lexicon.expr(Expr::Lt(left, right), 0) == lexicon.expr(*left, 4) + " < "@ + lexicon.expr(
            *right,
            4,
        ),
        lexicon.expr(Expr::Contains { map: left, key: right }, 0) == lexicon.expr(*right, 4)
            + " in "@ + lexicon.expr(*left, 4),
        lexicon.expr(Expr::Not(left), 0) == "!"@ + lexicon.expr(*left, 5),
{
}

/// A choice reads as its judgment, then what it chooses where that holds,
/// then what it chooses where it does not.
pub proof fn law_a_choice_reads_in_order(
    lexicon: Lexicon,
    cond: Box<Expr>,
    chosen: Box<Expr>,
    otherwise: Box<Expr>,
)
    ensures
        lexicon.expr(Expr::If { cond, chosen, otherwise }, 0) == "if "@ + lexicon.expr(*cond, 0)
            + " then "@ + lexicon.expr(*chosen, 0) + " else "@ + lexicon.expr(*otherwise, 0),
{
}

/// What a call is given reads by its place, what a loop stands at by how
/// far out it is, and a fresh name by its number: two such names read
/// alike exactly where they are one.
#[verifier::rlimit(60)]
pub proof fn law_numbered_names_read_apart(lexicon: Lexicon, one: u32, other: u32)
    ensures
        lexicon.expr(Expr::Arg(one), 0) == lexicon.expr(Expr::Arg(other), 0) <==> one == other,
        lexicon.expr(Expr::Binding(one), 0) == lexicon.expr(Expr::Binding(other), 0) <==> one
            == other,
        lexicon.expr(Expr::FreshId { slot: one }, 0) == lexicon.expr(
            Expr::FreshId { slot: other },
            0,
        ) <==> one == other,
        lexicon.expr(Expr::FreshKey { slot: one }, 0) == lexicon.expr(
            Expr::FreshKey { slot: other },
            0,
        ) <==> one == other,
        lexicon.expr(Expr::FreshKey { slot: one }, 0) != lexicon.expr(
            Expr::FreshId { slot: other },
            0,
        ),
        "arg"@.is_prefix_of(lexicon.expr(Expr::Arg(one), 0)),
        "element"@.is_prefix_of(lexicon.expr(Expr::Binding(one), 0)),
{
    reveal_strlit("arg");
    reveal_strlit("element");
    reveal_strlit("element^");
    reveal_strlit("fresh-id(");
    reveal_strlit("fresh-key(");
    reveal_strlit(")");
    let here = crate::text::decimal_text(one as nat);
    let there = crate::text::decimal_text(other as nat);
    crate::text::lemma_decimal_text(one as nat, other as nat);
    let arg = lexicon.expr(Expr::Arg(one), 0);
    let twin = lexicon.expr(Expr::Arg(other), 0);
    assert(arg.skip(3) =~= here);
    assert(twin.skip(3) =~= there);
    let bound = lexicon.expr(Expr::Binding(one), 0);
    let bound_twin = lexicon.expr(Expr::Binding(other), 0);
    if one > 0 {
        assert(bound.skip(8) =~= here);
        assert(bound.subrange(0, 7) =~= "element"@);
    }
    if other > 0 {
        assert(bound_twin.skip(8) =~= there);
    }
    if one == 0 && other > 0 {
        assert(bound.len() < bound_twin.len());
    }
    if other == 0 && one > 0 {
        assert(bound_twin.len() < bound.len());
    }
    let id = lexicon.expr(Expr::FreshId { slot: one }, 0);
    let id_twin = lexicon.expr(Expr::FreshId { slot: other }, 0);
    assert(id.subrange(9, id.len() - 1) =~= here);
    assert(id_twin.subrange(9, id_twin.len() - 1) =~= there);
    let key = lexicon.expr(Expr::FreshKey { slot: one }, 0);
    let key_twin = lexicon.expr(Expr::FreshKey { slot: other }, 0);
    assert(key.subrange(10, key.len() - 1) =~= here);
    assert(key_twin.subrange(10, key_twin.len() - 1) =~= there);
    assert(key[6] == 'k');
    assert(id_twin[6] == 'i');
}

/// Each question asked of an edge or a list is called by its own name,
/// around what it is asked of.
pub proof fn law_questions_read_by_their_names(lexicon: Lexicon, asked: Box<Expr>)
    ensures
        lexicon.expr(Expr::ResourceOf(asked), 0) == "resource-of("@ + lexicon.expr(*asked, 0)
            + ")"@,
        lexicon.expr(Expr::IdsOf(asked), 0) == "ids-of("@ + lexicon.expr(*asked, 0) + ")"@,
        lexicon.expr(Expr::Len(asked), 0) == "len("@ + lexicon.expr(*asked, 0) + ")"@,
        lexicon.expr(Expr::Only(asked), 0) == "only("@ + lexicon.expr(*asked, 0) + ")"@,
        lexicon.expr(Expr::SelfAddr, 0) == "self"@,
        lexicon.expr(Expr::SelfRecord, 0) == "self.record"@,
{
}

/// A projection, a lookup, a pack and a non-fungible edge read in the
/// order they are written in.
pub proof fn law_pairs_read_in_order(
    lexicon: Lexicon,
    one: Box<Expr>,
    other: Box<Expr>,
    field: u32,
)
    ensures
        lexicon.expr(Expr::Field(one, field), 0) == lexicon.expr(*one, 6) + "."@
            + crate::text::decimal_text(field as nat),
        lexicon.expr(Expr::Lookup { map: one, key: other }, 0) == lexicon.expr(*one, 6) + "["@
            + lexicon.expr(*other, 0) + "]"@,
        lexicon.expr(Expr::Pack { hi: one, lo: other }, 0) == "pack("@ + lexicon.expr(*one, 0)
            + ", "@ + lexicon.expr(*other, 0) + ")"@,
        lexicon.expr(Expr::NfBucket { resource: one, ids: other }, 0) == "edge("@ + lexicon.expr(
            *one,
            0,
        ) + " × "@ + lexicon.expr(*other, 0) + ")"@,
{
}

/// A key and an order key show whose they are, the slot they name and
/// everything they are keyed by, in that order.
#[verifier::rlimit(60)]
pub proof fn law_keys_show_what_they_are_keyed_by(
    lexicon: Lexicon,
    owner: Box<Expr>,
    slot: SlotRef,
    filed: crate::types::SlotId,
    material: Vec<Expr>,
    i: int,
)
    requires
        0 <= i < material@.len(),
    ensures
        ({
            let key = lexicon.expr(Expr::ChildKey { owner, slot, material }, 0);
            let order = lexicon.expr(Expr::OrderKey { owner, slot: filed, material }, 0);
            &&& (lexicon.expr(*owner, 6) + "."@ + lexicon.slot(slot) + "["@).is_prefix_of(key)
            &&& ("order-key("@ + lexicon.expr(*owner, 6) + "."@ + lexicon.fixed_slot(filed)
                + "["@).is_prefix_of(order)
            &&& crate::explain::content::shows(key, lexicon.expr(material@[i], 0))
            &&& crate::explain::content::shows(order, lexicon.expr(material@[i], 0))
        }),
{
    let key = lexicon.expr(Expr::ChildKey { owner, slot, material }, 0);
    let order = lexicon.expr(Expr::OrderKey { owner, slot: filed, material }, 0);
    let parts = lexicon.exprs(material@);
    let list = crate::text::joined_text(parts, ", "@);
    let head = lexicon.expr(*owner, 6) + "."@ + lexicon.slot(slot) + "["@;
    let lead = "order-key("@ + lexicon.expr(*owner, 6) + "."@ + lexicon.fixed_slot(filed) + "["@;
    let keyed = lexicon.material(material@);
    assert(keyed == "["@ + list + "]"@);
    assert(lexicon.term(Expr::ChildKey { owner, slot, material }) == lexicon.expr(*owner, 6) + "."@
        + lexicon.slot(slot) + keyed);
    assert(lexicon.term(Expr::OrderKey { owner, slot: filed, material }) == "order-key("@ + (
    lexicon.expr(*owner, 6) + "."@ + lexicon.fixed_slot(filed) + keyed) + ")"@);
    assert(key =~= head + list + "]"@);
    assert(order =~= lead + list + ("]"@ + ")"@));
    assert(parts[i] == lexicon.expr(material@[i], 0));
    crate::explain::content::lemma_list_shows(parts, ", "@, i);
    crate::explain::content::lemma_shows(head, list, "]"@);
    crate::explain::content::lemma_shows(lead, list, "]"@ + ")"@);
    crate::explain::content::lemma_shows_within(key, list, parts[i]);
    crate::explain::content::lemma_shows_within(order, list, parts[i]);
}

/// A list and a tuple show everything they hold, a list in square brackets
/// and a tuple in round ones.
pub proof fn law_lists_show_what_they_hold(lexicon: Lexicon, parts: Vec<Expr>, i: int)
    requires
        0 <= i < parts@.len(),
    ensures
        ({
            let list = lexicon.expr(Expr::List(parts), 0);
            let tuple = lexicon.expr(Expr::Tuple(parts), 0);
            &&& crate::explain::content::shows(list, lexicon.expr(parts@[i], 0))
            &&& crate::explain::content::shows(tuple, lexicon.expr(parts@[i], 0))
            &&& "["@.is_prefix_of(list) && "]"@.is_suffix_of(list)
            &&& "("@.is_prefix_of(tuple) && ")"@.is_suffix_of(tuple)
        }),
{
    let list = lexicon.expr(Expr::List(parts), 0);
    let tuple = lexicon.expr(Expr::Tuple(parts), 0);
    let texts = lexicon.exprs(parts@);
    let run = crate::text::joined_text(texts, ", "@);
    assert(texts[i] == lexicon.expr(parts@[i], 0));
    crate::explain::content::lemma_list_shows(texts, ", "@, i);
    crate::explain::content::lemma_shows("["@, run, "]"@);
    crate::explain::content::lemma_shows("("@, run, ")"@);
    crate::explain::content::lemma_shows_within(list, run, texts[i]);
    crate::explain::content::lemma_shows_within(tuple, run, texts[i]);
}

/// A configured field reads by the name the package gives it, and by its
/// index where it gives none.
pub proof fn law_a_field_reads_by_its_name(lexicon: Lexicon, field: u32)
    ensures
        field < lexicon.metadata.config@.len() ==> lexicon.expr(Expr::Config(field), 0)
            == "config."@ + lexicon.metadata.config@[field as int]@,
        field >= lexicon.metadata.config@.len() ==> lexicon.expr(Expr::Config(field), 0)
            == "config["@ + crate::text::decimal_text(field as nat) + "]"@,
{
}

/// A slot of the package's own reads by the name its state table gives it,
/// and by its number where it gives none.
pub proof fn law_a_slot_reads_by_its_name(lexicon: Lexicon, slot: crate::types::SlotId)
    requires
        crate::types::PACKAGE_SLOT_BASE <= slot.0 < crate::types::KERNEL_SLOT_BASE,
    ensures
        ({
            let rows = lexicon.metadata.state.listed();
            &&& (forall|i: int| 0 <= i < rows.len() ==> (#[trigger] rows[i]).0 != slot)
                ==> lexicon.slot(SlotRef::Fixed(slot)) == "slot "@ + crate::text::decimal_text(
                slot.0 as nat,
            )
            &&& forall|i: int|
                0 <= i < rows.len() && (#[trigger] rows[i]).0 == slot && (forall|j: int|
                    0 <= j < i ==> (#[trigger] rows[j]).0 != slot) ==> lexicon.slot(
                    SlotRef::Fixed(slot),
                ) == rows[i].1.name@
        }),
{
    let rows = lexicon.metadata.state.listed();
    if forall|i: int| 0 <= i < rows.len() ==> (#[trigger] rows[i]).0 != slot {
        lemma_no_row(rows, slot);
    }
    assert forall|i: int|
        0 <= i < rows.len() && (#[trigger] rows[i]).0 == slot && (forall|j: int|
            0 <= j < i ==> (#[trigger] rows[j]).0 != slot) implies lexicon.slot(
        SlotRef::Fixed(slot),
    ) == rows[i].1.name@ by {
        lemma_first_row(rows, slot, i);
    }
}

/// A slot no row is under finds nothing.
proof fn lemma_no_row(
    rows: Seq<(crate::types::SlotId, crate::metadata::SlotShape)>,
    slot: crate::types::SlotId,
)
    requires
        forall|i: int| 0 <= i < rows.len() ==> (#[trigger] rows[i]).0 != slot,
    ensures
        crate::table::value_under(rows, crate::table::TableKey::ordinal(slot)) is None,
    decreases rows.len(),
{
    if rows.len() > 0 {
        let rest = rows.skip(1);
        assert(rows[0].0 != slot);
        assert(crate::table::TableKey::ordinal(rows[0].0)[0] == rows[0].0.0);
        assert(crate::table::TableKey::ordinal(slot)[0] == slot.0);
        assert forall|i: int| 0 <= i < rest.len() implies (#[trigger] rest[i]).0 != slot by {
            assert(rest[i] == rows[i + 1]);
        }
        lemma_no_row(rest, slot);
    }
}

/// A slot finds the first row under it.
proof fn lemma_first_row(
    rows: Seq<(crate::types::SlotId, crate::metadata::SlotShape)>,
    slot: crate::types::SlotId,
    i: int,
)
    requires
        0 <= i < rows.len(),
        rows[i].0 == slot,
        forall|j: int| 0 <= j < i ==> (#[trigger] rows[j]).0 != slot,
    ensures
        crate::table::value_under(rows, crate::table::TableKey::ordinal(slot)) == Some(rows[i].1),
    decreases i,
{
    if i > 0 {
        let rest = rows.skip(1);
        assert(rows[0].0 != slot);
        assert(crate::table::TableKey::ordinal(rows[0].0)[0] == rows[0].0.0);
        assert(crate::table::TableKey::ordinal(slot)[0] == slot.0);
        assert forall|j: int| 0 <= j < i - 1 implies (#[trigger] rest[j]).0 != slot by {
            assert(rest[j] == rows[j + 1]);
        }
        assert(rest[i - 1] == rows[i]);
        lemma_first_row(rest, slot, i - 1);
    }
}

/// A grant's subject reads as who it is: the issuer, its badge, one
/// instance of its badge, or a configured party.
pub proof fn law_a_grant_reads_as_who_it_names(lexicon: Lexicon, subject: GrantSubject)
    ensures
        match subject {
            GrantSubject::SelfAddr => lexicon.grant_claim(subject) == "the issuer"@,
            GrantSubject::Config(field) => lexicon.grant_claim(subject) == lexicon.expr(
                Expr::Config(field),
                0,
            ),
            GrantSubject::SelfBadge { mark, .. } => lexicon.grant_claim(subject)
                == "the issuer's "@ + crate::explain::literal::bytes_spelling(mark@)
                + " badge"@,
            GrantSubject::SelfInstance { mark, id, .. } => lexicon.grant_claim(subject)
                == "instance "@ + crate::text::decimal_text(id as nat) + " of the issuer's "@
                + crate::explain::literal::bytes_spelling(mark@) + " badge"@,
        },
{
}

/// An entry reads as whom it lets through. One about whoever acts, which a
/// mint, a burn, a freeze and a recall are, names its subject as it is;
/// one about the party whose cell moves, which a withdrawal and a deposit
/// are, says whether that party holds something, answers for a field, or
/// needs the issuer's approval. One anyone meets and one nobody does say
/// so.
pub proof fn law_an_entry_reads_as_whom_it_lets_through(
    lexicon: Lexicon,
    behaviour: GrantedBehaviour,
    subject: GrantSubject,
)
    ensures
        ({
            let text = lexicon.grant_entry(behaviour, Rule::Require(subject));
            if behaviour == GrantedBehaviour::Withdraw || behaviour == GrantedBehaviour::Deposit {
                match subject {
                    GrantSubject::SelfAddr => text == "whatever transaction the issuer approves"@,
                    GrantSubject::Config(_) => text == "whoever answers for "@
                        + lexicon.grant_claim(subject),
                    _ => text == "whoever holds "@ + lexicon.grant_claim(subject),
                }
            } else {
                text == lexicon.grant_claim(subject)
            }
        }),
{
}

/// A threshold of a grant says how many it asks for, and shows each, as
/// the entry it stands in reads; asking none of none lets anyone through,
/// and asking one of none nobody.
pub proof fn law_a_granted_threshold_reads_as_its_rules(
    lexicon: Lexicon,
    behaviour: GrantedBehaviour,
    count: u32,
    rules: Vec<crate::resource::GrantRuleExpr>,
    i: int,
)
    ensures
        ({
            let text = lexicon.grant_entry(behaviour, Rule::CountOf { count, rules });
            &&& count == 0 && rules@.len() == 0 ==> text == "anyone"@
            &&& count == 1 && rules@.len() == 0 ==> text == "nobody"@
            &&& 0 <= i < rules@.len() ==> (crate::text::decimal_text(count as nat)
                + " of ("@).is_prefix_of(text) && crate::explain::content::shows(
                text,
                if behaviour == GrantedBehaviour::Withdraw || behaviour
                    == GrantedBehaviour::Deposit {
                    lexicon.grant_entry(behaviour, rules@[i])
                } else {
                    lexicon.grant_rule(rules@[i])
                },
            )
        }),
{
    if 0 <= i < rules@.len() {
        let rule = Rule::<GrantSubject>::CountOf { count, rules };
        let text = lexicon.grant_entry(behaviour, rule);
        let moving = behaviour == GrantedBehaviour::Withdraw || behaviour
            == GrantedBehaviour::Deposit;
        let parts = if moving {
            lexicon.grant_entries(behaviour, rules@)
        } else {
            lexicon.grant_rules(rules@)
        };
        let lead = crate::text::decimal_text(count as nat) + " of ("@;
        let list = crate::text::joined_text(parts, ", "@);
        assert(text =~= lead + list + ")"@);
        crate::explain::content::lemma_list_shows(parts, ", "@, i);
        crate::explain::content::lemma_shows(lead, list, ")"@);
        crate::explain::content::lemma_shows_within(text, list, parts[i]);
    }
}

/// What a resource grants shows every entry of its rules, by its behaviour
/// and whom it lets through; a resource that grants nothing says nothing.
pub proof fn law_grants_show_every_entry(
    lexicon: Lexicon,
    grants: crate::resource::GrantsExpr,
    i: int,
)
    ensures
        grants.listed().len() == 0 ==> lexicon.granting(grants).len() == 0 && lexicon.grants_of(
            grants,
        ).len() == 0,
        0 <= i < grants.listed().len() ==> {
            let (behaviour, rule) = grants.listed()[i];
            &&& "granting "@.is_prefix_of(lexicon.granting(grants))
            &&& crate::explain::content::shows(
                lexicon.granting(grants),
                behaviour.label() + " to "@ + lexicon.grant_entry(behaviour, rule),
            )
            &&& lexicon.grants_of(grants) == ", "@ + lexicon.granting(grants)
        },
{
    if 0 <= i < grants.listed().len() {
        let parts = lexicon.granted(grants.listed());
        let list = crate::text::joined_text(parts, " and "@);
        let text = lexicon.granting(grants);
        assert(text =~= "granting "@ + list + Seq::<char>::empty());
        crate::explain::content::lemma_list_shows(parts, " and "@, i);
        crate::explain::content::lemma_shows("granting "@, list, Seq::empty());
        crate::explain::content::lemma_shows_within(text, list, parts[i]);
    }
}

/// A binding reads as what the export is handed: an edge by its parameter,
/// a judgment by the line it is of, a handle by its own, and a derived
/// argument by its expression.
pub proof fn law_a_binding_reads_as_what_is_handed(
    lexicon: Lexicon,
    effects: Seq<Clause>,
    named: u32,
    expr: Expr,
)
    ensures
        lexicon.abi_param(AbiParam::Bucket(named), effects) == "edge arg"@
            + crate::text::decimal_text(named as nat),
        lexicon.abi_param(AbiParam::Derived(expr), effects) == lexicon.expr(expr, 0),
        "whether clause "@.is_prefix_of(lexicon.abi_param(AbiParam::Guard(named), effects)),
        " was declared"@.is_suffix_of(lexicon.abi_param(AbiParam::Guard(named), effects)),
        "handle for clause "@.is_prefix_of(
            lexicon.abi_param(AbiParam::Handle { clause: named, site: 0 }, effects),
        ),
{
    let judged = lexicon.abi_param(AbiParam::Guard(named), effects);
    let tail = " was declared"@;
    assert(judged.subrange(judged.len() - tail.len(), judged.len() as int) =~= tail);
}

/// A method's rendering shows everything the method declares: its name and
/// parameters, how surely it returns and whether it answers, what it takes
/// and what it issues and destroys, every clause under its number, every
/// edge it yields, and its exports.
pub proof fn law_a_method_shows_what_it_declares(
    lexicon: Lexicon,
    name: Seq<char>,
    signature: MethodSignature,
    i: int,
)
    ensures
        ({
            let text = lexicon.method(name, signature);
            &&& (name + "("@).is_prefix_of(text)
            &&& 0 <= i < signature.params@.len() ==> crate::explain::content::shows(
                text,
                crate::explain::package::param_spelling(signature.params@[i]),
            )
            &&& signature.totality == Totality::Total ==> crate::explain::content::shows(
                text,
                if signature.answers {
                    ") — total, answers\n"@
                } else {
                    ") — total\n"@
                },
            )
            &&& signature.totality == Totality::Infallible ==> crate::explain::content::shows(
                text,
                if signature.answers {
                    ") — infallible, answers\n"@
                } else {
                    ") — infallible\n"@
                },
            )
            &&& signature.totality == Totality::Fallible ==> crate::explain::content::shows(
                text,
                if signature.answers {
                    ") — fallible, answers\n"@
                } else {
                    ") — fallible\n"@
                },
            )
            &&& 0 <= i < signature.denominations@.len()
                && signature.denominations@[i] is Some ==> crate::explain::content::shows(
                text,
                "  takes    arg"@ + crate::text::decimal_text(i as nat) + " carrying "@
                    + lexicon.expr(signature.denominations@[i]->Some_0, ATOM as int) + "\n"@,
            )
            &&& 0 <= i < signature.issues@.len() ==> crate::explain::content::shows(
                text,
                crate::explain::package::direction_spelling(signature.issues@[i].direction)
                    + crate::explain::literal::bytes_spelling(signature.issues@[i].mark@) + " "@
                    + crate::explain::literal::kind_spelling(signature.issues@[i].kind),
            )
            &&& 0 <= i < signature.destroys@.len() ==> crate::explain::content::shows(
                text,
                "  destroys arg"@ + crate::text::decimal_text(signature.destroys@[i] as nat)
                    + ", if its own rule admits it\n"@,
            )
            &&& 0 <= i < signature.effects@.len() && Clause::preorder(
                signature.effects@.take(i),
            ).len() <= u32::MAX ==> crate::explain::content::shows(
                text,
                lexicon.clause(
                    signature.effects@[i],
                    Clause::preorder(signature.effects@.take(i)).len() as u32,
                    "    "@,
                ),
            )
            &&& 0 <= i < signature.outputs@.len() ==> crate::explain::content::shows(
                text,
                "  yields   edge "@ + crate::text::decimal_text(i as nat) + " carrying "@ + (
                match signature.outputs@[i] {
                    Expr::NfBucket { resource, ids } => lexicon.expr(*resource, 6) + " × "@
                        + lexicon.expr(*ids, 6),
                    _ => lexicon.expr(signature.outputs@[i], 6),
                }) + "\n"@,
            )
            &&& signature.abi@.len() > 0 ==> ("  exports  "@ + crate::text::joined_text(
                lexicon.exports(signature.abi@, signature.effects@, Seq::empty()),
                ", "@,
            ) + "\n"@).is_suffix_of(text)
        }),
{
    lemma_method_heads(lexicon, name, signature, i);
    lemma_method_lines(lexicon, name, signature, i);
}

/// A method's rendering in its eight parts.
spec fn method_parts(lexicon: Lexicon, name: Seq<char>, signature: MethodSignature) -> Seq<
    Seq<char>,
> {
    seq![
        name + "("@,
        crate::text::joined_text(
            crate::explain::package::param_spellings(signature.params@),
            ", "@,
        ),
        ") — "@ + crate::explain::literal::totality_spelling(signature.totality) + (
        if signature.answers {
            ", answers"@
        } else {
            Seq::empty()
        }) + "\n"@,
        crate::text::run_on(lexicon.take_lines(signature.denominations@)),
        crate::text::run_on(lexicon.issue_lines(signature.issues@)),
        crate::text::run_on(lexicon.destroy_lines(signature.destroys@)),
        if signature.effects@.len() == 0 {
            Seq::empty()
        } else {
            "  declares\n"@ + crate::text::run_on(
                lexicon.clauses(signature.effects@, 0, "    "@),
            )
        },
        crate::text::run_on(lexicon.yield_lines(signature.outputs@)),
        if signature.abi@.len() == 0 {
            Seq::empty()
        } else {
            "  exports  "@ + crate::text::joined_text(
                lexicon.exports(signature.abi@, signature.effects@, Seq::empty()),
                ", "@,
            ) + "\n"@
        },
    ]
}

/// What is put together two by two is what is put together at once.
proof fn lemma_grouped(
    name: Seq<char>,
    opening: Seq<char>,
    params: Seq<char>,
    dash: Seq<char>,
    totality: Seq<char>,
    answers: Seq<char>,
    end: Seq<char>,
)
    ensures
        name + opening + params + dash + totality + answers + end == (name + opening) + params + (dash
            + totality + answers + end),
{
    assert(name + opening + params + dash + totality + answers + end =~= (name + opening) + params + (
    dash + totality + answers + end));
}

/// Each of nine texts stands in the nine put together, the first first and
/// the last last.
#[verifier::rlimit(60)]
proof fn lemma_nine_show(p: Seq<Seq<char>>)
    requires
        p.len() == 9,
    ensures
        ({
            let whole = p[0] + p[1] + p[2] + p[3] + p[4] + p[5] + p[6] + p[7] + p[8];
            &&& p[0].is_prefix_of(whole)
            &&& p[8].is_suffix_of(whole)
            &&& forall|k: int| 0 <= k < 9 ==> crate::explain::content::shows(whole, #[trigger] p[k])
        }),
{
    let whole = p[0] + p[1] + p[2] + p[3] + p[4] + p[5] + p[6] + p[7] + p[8];
    let none = Seq::<char>::empty();
    assert(whole.subrange(0, p[0].len() as int) =~= p[0]);
    assert(whole.subrange(whole.len() - p[8].len(), whole.len() as int) =~= p[8]);
    assert forall|k: int| 0 <= k < 9 implies crate::explain::content::shows(
        whole,
        #[trigger] p[k],
    ) by {
        let a1 = p[0];
        let a2 = a1 + p[1];
        let a3 = a2 + p[2];
        let a4 = a3 + p[3];
        let a5 = a4 + p[4];
        let a6 = a5 + p[5];
        let a7 = a6 + p[6];
        let a8 = a7 + p[7];
        let before = if k == 0 {
            none
        } else if k == 1 {
            a1
        } else if k == 2 {
            a2
        } else if k == 3 {
            a3
        } else if k == 4 {
            a4
        } else if k == 5 {
            a5
        } else if k == 6 {
            a6
        } else if k == 7 {
            a7
        } else {
            a8
        };
        let at = before.len() as int;
        assert(whole.subrange(at, at + p[k].len()) =~= p[k]);
        assert(crate::explain::content::stands_at(whole, p[k], at));
    }
}

/// A method's rendering is its parts put together.
proof fn lemma_method_parts(lexicon: Lexicon, name: Seq<char>, signature: MethodSignature)
    ensures
        ({
            let p = method_parts(lexicon, name, signature);
            let text = lexicon.method(name, signature);
            &&& p[0].is_prefix_of(text)
            &&& p[8].is_suffix_of(text)
            &&& forall|k: int| 0 <= k < 9 ==> crate::explain::content::shows(text, #[trigger] p[k])
        }),
{
    let p = method_parts(lexicon, name, signature);
    lemma_grouped(
        name,
        "("@,
        p[1],
        ") — "@,
        crate::explain::literal::totality_spelling(signature.totality),
        if signature.answers {
            ", answers"@
        } else {
            Seq::empty()
        },
        "\n"@,
    );
    lemma_nine_show(p);
}

/// A method's rendering opens with its name and shows its parameters and
/// what it promises.
#[verifier::rlimit(60)]
proof fn lemma_method_heads(
    lexicon: Lexicon,
    name: Seq<char>,
    signature: MethodSignature,
    i: int,
)
    ensures
        ({
            let text = lexicon.method(name, signature);
            &&& (name + "("@).is_prefix_of(text)
            &&& 0 <= i < signature.params@.len() ==> crate::explain::content::shows(
                text,
                crate::explain::package::param_spelling(signature.params@[i]),
            )
            &&& signature.totality == Totality::Total ==> crate::explain::content::shows(
                text,
                if signature.answers {
                    ") — total, answers\n"@
                } else {
                    ") — total\n"@
                },
            )
            &&& signature.totality == Totality::Infallible ==> crate::explain::content::shows(
                text,
                if signature.answers {
                    ") — infallible, answers\n"@
                } else {
                    ") — infallible\n"@
                },
            )
            &&& signature.totality == Totality::Fallible ==> crate::explain::content::shows(
                text,
                if signature.answers {
                    ") — fallible, answers\n"@
                } else {
                    ") — fallible\n"@
                },
            )
        }),
{
    let text = lexicon.method(name, signature);
    let p = method_parts(lexicon, name, signature);
    lemma_method_parts(lexicon, name, signature);
    if 0 <= i < signature.params@.len() {
        let params = crate::explain::package::param_spellings(signature.params@);
        crate::explain::content::lemma_list_shows(params, ", "@, i);
        assert(crate::explain::content::shows(text, p[1]));
        crate::explain::content::lemma_shows_within(text, p[1], params[i]);
    }
    lemma_promise(signature);
    assert(crate::explain::content::shows(text, p[2]));
}

/// What a method promises, in one text.
proof fn lemma_promise(signature: MethodSignature)
    ensures
        ({
            let text = ") — "@ + crate::explain::literal::totality_spelling(signature.totality) + (
            if signature.answers {
                ", answers"@
            } else {
                Seq::empty()
            }) + "\n"@;
            text == match (signature.totality, signature.answers) {
                (Totality::Total, true) => ") — total, answers\n"@,
                (Totality::Total, false) => ") — total\n"@,
                (Totality::Infallible, true) => ") — infallible, answers\n"@,
                (Totality::Infallible, false) => ") — infallible\n"@,
                (Totality::Fallible, true) => ") — fallible, answers\n"@,
                (Totality::Fallible, false) => ") — fallible\n"@,
            }
        }),
{
    reveal_strlit(") — ");
    reveal_strlit("total");
    reveal_strlit("infallible");
    reveal_strlit("fallible");
    reveal_strlit(", answers");
    reveal_strlit("\n");
    reveal_strlit(") — total, answers\n");
    reveal_strlit(") — total\n");
    reveal_strlit(") — infallible, answers\n");
    reveal_strlit(") — infallible\n");
    reveal_strlit(") — fallible, answers\n");
    reveal_strlit(") — fallible\n");
    let text = ") — "@ + crate::explain::literal::totality_spelling(signature.totality) + (
    if signature.answers {
        ", answers"@
    } else {
        Seq::empty()
    }) + "\n"@;
    match (signature.totality, signature.answers) {
        (Totality::Total, true) => assert(text =~= ") — total, answers\n"@),
        (Totality::Total, false) => assert(text =~= ") — total\n"@),
        (Totality::Infallible, true) => assert(text =~= ") — infallible, answers\n"@),
        (Totality::Infallible, false) => assert(text =~= ") — infallible\n"@),
        (Totality::Fallible, true) => assert(text =~= ") — fallible, answers\n"@),
        (Totality::Fallible, false) => assert(text =~= ") — fallible\n"@),
    }
}

/// A method's rendering shows what it takes, issues, destroys, declares,
/// yields and exports.
#[verifier::rlimit(60)]
proof fn lemma_method_lines(
    lexicon: Lexicon,
    name: Seq<char>,
    signature: MethodSignature,
    i: int,
)
    ensures
        ({
            let text = lexicon.method(name, signature);
            &&& 0 <= i < signature.denominations@.len()
                && signature.denominations@[i] is Some ==> crate::explain::content::shows(
                text,
                "  takes    arg"@ + crate::text::decimal_text(i as nat) + " carrying "@
                    + lexicon.expr(signature.denominations@[i]->Some_0, ATOM as int) + "\n"@,
            )
            &&& 0 <= i < signature.issues@.len() ==> crate::explain::content::shows(
                text,
                crate::explain::package::direction_spelling(signature.issues@[i].direction)
                    + crate::explain::literal::bytes_spelling(signature.issues@[i].mark@) + " "@
                    + crate::explain::literal::kind_spelling(signature.issues@[i].kind),
            )
            &&& 0 <= i < signature.destroys@.len() ==> crate::explain::content::shows(
                text,
                "  destroys arg"@ + crate::text::decimal_text(signature.destroys@[i] as nat)
                    + ", if its own rule admits it\n"@,
            )
            &&& 0 <= i < signature.effects@.len() && Clause::preorder(
                signature.effects@.take(i),
            ).len() <= u32::MAX ==> crate::explain::content::shows(
                text,
                lexicon.clause(
                    signature.effects@[i],
                    Clause::preorder(signature.effects@.take(i)).len() as u32,
                    "    "@,
                ),
            )
            &&& 0 <= i < signature.outputs@.len() ==> crate::explain::content::shows(
                text,
                "  yields   edge "@ + crate::text::decimal_text(i as nat) + " carrying "@ + (
                match signature.outputs@[i] {
                    Expr::NfBucket { resource, ids } => lexicon.expr(*resource, 6) + " × "@
                        + lexicon.expr(*ids, 6),
                    _ => lexicon.expr(signature.outputs@[i], 6),
                }) + "\n"@,
            )
            &&& signature.abi@.len() > 0 ==> ("  exports  "@ + crate::text::joined_text(
                lexicon.exports(signature.abi@, signature.effects@, Seq::empty()),
                ", "@,
            ) + "\n"@).is_suffix_of(text)
        }),
{
    let text = lexicon.method(name, signature);
    let p = method_parts(lexicon, name, signature);
    lemma_method_parts(lexicon, name, signature);
    assert(crate::explain::content::shows(text, p[3]));
    assert(crate::explain::content::shows(text, p[4]));
    assert(crate::explain::content::shows(text, p[5]));
    assert(crate::explain::content::shows(text, p[6]));
    assert(crate::explain::content::shows(text, p[7]));
    if 0 <= i < signature.denominations@.len() {
        let lines = lexicon.take_lines(signature.denominations@);
        crate::explain::content::lemma_run_shows(lines, i);
        crate::explain::content::lemma_shows_within(text, p[3], lines[i]);
    }
    if 0 <= i < signature.issues@.len() {
        let lines = lexicon.issue_lines(signature.issues@);
        let issued = signature.issues@[i];
        let said = crate::explain::package::direction_spelling(issued.direction)
            + crate::explain::literal::bytes_spelling(issued.mark@) + " "@
            + crate::explain::literal::kind_spelling(issued.kind);
        let rest = lines[i].skip(2 + said.len() as int);
        reveal_strlit("  ");
        assert(lines[i] =~= "  "@ + said + rest);
        crate::explain::content::lemma_shows("  "@, said, rest);
        crate::explain::content::lemma_run_shows(lines, i);
        crate::explain::content::lemma_shows_within(text, p[4], lines[i]);
        crate::explain::content::lemma_shows_within(text, lines[i], said);
    }
    if 0 <= i < signature.destroys@.len() {
        let lines = lexicon.destroy_lines(signature.destroys@);
        crate::explain::content::lemma_run_shows(lines, i);
        crate::explain::content::lemma_shows_within(text, p[5], lines[i]);
    }
    if 0 <= i < signature.effects@.len() && Clause::preorder(signature.effects@.take(i)).len()
        <= u32::MAX {
        let lines = lexicon.clauses(signature.effects@, 0, "    "@);
        let run = crate::text::run_on(lines);
        crate::explain::content::lemma_run_shows(lines, i);
        crate::explain::content::lemma_shows("  declares\n"@, run, Seq::empty());
        assert(p[6] =~= "  declares\n"@ + run + Seq::<char>::empty());
        crate::explain::content::lemma_shows_within(text, p[6], run);
        crate::explain::content::lemma_shows_within(text, run, lines[i]);
    }
    if 0 <= i < signature.outputs@.len() {
        let lines = lexicon.yield_lines(signature.outputs@);
        crate::explain::content::lemma_run_shows(lines, i);
        crate::explain::content::lemma_shows_within(text, p[7], lines[i]);
    }
}

/// Whether a list of exports speaks of a handle on a line: by its number,
/// or among a range of them.
pub open spec fn speaks_of_line(exports: Seq<Seq<char>>, line: u32) -> bool {
    exists|k: int| 0 <= k < exports.len() && names_line(#[trigger] exports[k], line)
}

/// Whether a text names the handle on a line: by its number, or as one of
/// a range it lies in.
pub open spec fn names_line(text: Seq<char>, line: u32) -> bool {
    ||| text == "handle for clause "@ + crate::text::decimal_text(line as nat)
    ||| exists|first: u32, last: u32|
        first <= line <= last && text == #[trigger] range_of(first, last)
}

/// A range of handles, by the first line and the last.
pub open spec fn range_of(first: u32, last: u32) -> Seq<char> {
    "handles for clauses "@ + crate::text::decimal_text(first as nat) + "–"@
        + crate::text::decimal_text(last as nat)
}

/// An exports line speaks of every binding: of a handle on a line the
/// declaration lists by that line, alone or in a range it lies in, and of
/// any other binding by what is handed.
pub proof fn law_exports_speak_of_every_binding(
    lexicon: Lexicon,
    abi: Seq<AbiParam>,
    effects: Seq<Clause>,
    i: int,
)
    requires
        0 <= i < abi.len(),
    ensures
        ({
            let exports = lexicon.exports(abi, effects, Seq::empty());
            match abi[i] {
                AbiParam::Handle { clause, site } => match crate::explain::clause::listed_at(
                    effects,
                    clause,
                    Some(site),
                ) {
                    Some(line) => speaks_of_line(exports, line),
                    None => exports.contains(lexicon.abi_param(abi[i], effects)),
                },
                _ => exports.contains(lexicon.abi_param(abi[i], effects)),
            }
        }),
{
    lemma_exports(lexicon, abi, effects, Seq::empty());
}

/// Whether the lines of a run follow on each other.
spec fn follows_on(run: Seq<u32>) -> bool {
    forall|i: int| 0 <= i < run.len() ==> #[trigger] run[i] == run[0] + i
}

/// What a run of lines is exported as speaks of each of them.
proof fn lemma_run_speaks(run: Seq<u32>)
    requires
        follows_on(run),
    ensures
        forall|i: int|
            0 <= i < run.len() ==> speaks_of_line(
                crate::explain::clause::run_texts(run),
                #[trigger] run[i],
            ),
{
    let texts = crate::explain::clause::run_texts(run);
    assert forall|i: int| 0 <= i < run.len() implies speaks_of_line(texts, #[trigger] run[i]) by {
        if run.len() >= 3 {
            assert(run.last() == run[0] + (run.len() - 1));
            assert(texts[0] == range_of(run[0], run.last()));
            assert(names_line(texts[0], run[i]));
        } else {
            assert(texts[i] == "handle for clause "@ + crate::text::decimal_text(run[i] as nat));
            assert(names_line(texts[i], run[i]));
        }
    }
}

/// What a part of a list speaks of, the list does.
proof fn lemma_list_speaks(left: Seq<Seq<char>>, right: Seq<Seq<char>>, line: u32)
    ensures
        speaks_of_line(left, line) || speaks_of_line(right, line) ==> speaks_of_line(
            left + right,
            line,
        ),
{
    let whole = left + right;
    if speaks_of_line(left, line) {
        let k = choose|k: int| 0 <= k < left.len() && names_line(#[trigger] left[k], line);
        assert(whole[k] == left[k]);
    }
    if speaks_of_line(right, line) {
        let k = choose|k: int| 0 <= k < right.len() && names_line(#[trigger] right[k], line);
        assert(whole[left.len() + k] == right[k]);
    }
}

/// What a part of a list holds, the list does.
proof fn lemma_list_holds(left: Seq<Seq<char>>, right: Seq<Seq<char>>, text: Seq<char>)
    ensures
        left.contains(text) || right.contains(text) ==> (left + right).contains(text),
{
    let whole = left + right;
    if left.contains(text) {
        let k = choose|k: int| 0 <= k < left.len() && left[k] == text;
        assert(whole[k] == text);
    }
    if right.contains(text) {
        let k = choose|k: int| 0 <= k < right.len() && right[k] == text;
        assert(whole[left.len() + k] == text);
    }
}

/// Exports, from a run begun, speak of the run and of every binding.
#[verifier::rlimit(60)]
proof fn lemma_exports(
    lexicon: Lexicon,
    abi: Seq<AbiParam>,
    effects: Seq<Clause>,
    run: Seq<u32>,
)
    requires
        follows_on(run),
    ensures
        forall|i: int|
            0 <= i < run.len() ==> speaks_of_line(
                lexicon.exports(abi, effects, run),
                #[trigger] run[i],
            ),
        forall|i: int|
            0 <= i < abi.len() ==> match crate::explain::clause::handle_line(
                #[trigger] abi[i],
                effects,
            ) {
                Some(line) => speaks_of_line(lexicon.exports(abi, effects, run), line),
                None => lexicon.exports(abi, effects, run).contains(
                    lexicon.abi_param(abi[i], effects),
                ),
            },
    decreases abi.len(),
{
    lemma_run_speaks(run);
    let texts = crate::explain::clause::run_texts(run);
    if abi.len() > 0 {
        let rest = abi.skip(1);
        assert forall|i: int| 1 <= i < abi.len() implies rest[i - 1] == abi[i] by {}
        let whole = lexicon.exports(abi, effects, run);
        match crate::explain::clause::handle_line(abi[0], effects) {
            Some(line) => {
                if run.len() > 0 && line != run.last() + 1 {
                    let begun = seq![line];
                    let tail = lexicon.exports(rest, effects, begun);
                    lemma_exports(lexicon, rest, effects, begun);
                    assert(begun[0] == line);
                    assert(speaks_of_line(tail, begun[0]));
                    assert(whole == texts + tail);
                    assert forall|i: int| 0 <= i < run.len() implies speaks_of_line(
                        whole,
                        #[trigger] run[i],
                    ) by {
                        lemma_list_speaks(texts, tail, run[i]);
                    }
                    lemma_tail_exports(lexicon, abi, effects, texts, tail);
                    lemma_list_speaks(texts, tail, line);
                } else {
                    let longer = run.push(line);
                    assert forall|i: int| 0 <= i < longer.len() implies #[trigger] longer[i]
                        == longer[0] + i by {
                        if i < run.len() {
                            assert(run[i] == run[0] + i);
                        } else if run.len() > 0 {
                            assert(run[run.len() - 1] == run[0] + (run.len() - 1));
                        }
                    }
                    lemma_exports(lexicon, rest, effects, longer);
                    assert(whole == lexicon.exports(rest, effects, longer));
                    assert forall|i: int| 0 <= i < run.len() implies speaks_of_line(
                        whole,
                        #[trigger] run[i],
                    ) by {
                        assert(longer[i] == run[i]);
                    }
                    assert(longer[run.len() as int] == line);
                    assert forall|i: int|
                        0 <= i < abi.len() implies match crate::explain::clause::handle_line(
                        #[trigger] abi[i],
                        effects,
                    ) {
                        Some(line) => speaks_of_line(whole, line),
                        None => whole.contains(lexicon.abi_param(abi[i], effects)),
                    } by {
                        if i > 0 {
                            assert(rest[i - 1] == abi[i]);
                        }
                    }
                }
            },
            None => {
                let said = seq![lexicon.abi_param(abi[0], effects)];
                let tail = lexicon.exports(rest, effects, Seq::empty());
                lemma_exports(lexicon, rest, effects, Seq::empty());
                assert(whole == texts + said + tail);
                assert forall|i: int| 0 <= i < run.len() implies speaks_of_line(
                    whole,
                    #[trigger] run[i],
                ) by {
                    lemma_list_speaks(texts, said, run[i]);
                    lemma_list_speaks(texts + said, tail, run[i]);
                }
                lemma_tail_exports(lexicon, abi, effects, texts + said, tail);
                assert(said[0] == lexicon.abi_param(abi[0], effects));
                lemma_list_holds(texts, said, said[0]);
                lemma_list_holds(texts + said, tail, said[0]);
            },
        }
    }
}

/// What the exports of the bindings after the first speak of, a list
/// ending with them does.
proof fn lemma_tail_exports(
    lexicon: Lexicon,
    abi: Seq<AbiParam>,
    effects: Seq<Clause>,
    lead: Seq<Seq<char>>,
    tail: Seq<Seq<char>>,
)
    requires
        abi.len() > 0,
        forall|i: int|
            0 <= i < abi.skip(1).len() ==> match crate::explain::clause::handle_line(
                #[trigger] abi.skip(1)[i],
                effects,
            ) {
                Some(line) => speaks_of_line(tail, line),
                None => tail.contains(lexicon.abi_param(abi.skip(1)[i], effects)),
            },
    ensures
        forall|i: int|
            1 <= i < abi.len() ==> match crate::explain::clause::handle_line(
                #[trigger] abi[i],
                effects,
            ) {
                Some(line) => speaks_of_line(lead + tail, line),
                None => (lead + tail).contains(lexicon.abi_param(abi[i], effects)),
            },
{
    assert forall|i: int| 1 <= i < abi.len() implies match crate::explain::clause::handle_line(
        #[trigger] abi[i],
        effects,
    ) {
        Some(line) => speaks_of_line(lead + tail, line),
        None => (lead + tail).contains(lexicon.abi_param(abi[i], effects)),
    } by {
        assert(abi.skip(1)[i - 1] == abi[i]);
        match crate::explain::clause::handle_line(abi[i], effects) {
            Some(line) => lemma_list_speaks(lead, tail, line),
            None => lemma_list_holds(lead, tail, lexicon.abi_param(abi[i], effects)),
        }
    }
}

/// What a slot's leaf holds reads as it is: its own bytes, a type by its
/// name, nothing, a nameless layout, or the place of a shape there is
/// none of.
pub proof fn law_a_leaf_reads_as_what_it_holds(
    form: crate::metadata::LeafForm,
    types: Seq<crate::shape::ShapeNode>,
)
    ensures
        ({
            let text = crate::explain::package::leaf_spelling(form, types);
            match form {
                crate::metadata::LeafForm::Bytes => text == "holding its own bytes"@,
                crate::metadata::LeafForm::Value(place) => {
                    &&& place.0 >= types.len() ==> text == "holding shape "@
                        + crate::text::decimal_text(place.0 as nat)
                    &&& place.0 < types.len() ==> (match types[place.0 as int].name {
                        Some(name) => text == "holding "@ + name@,
                        None => text == (if types[place.0 as int].shape
                            matches crate::shape::TypeShape::Tuple(parts) && parts@.len() == 0 {
                            "holding nothing"@
                        } else {
                            "holding "@ + crate::explain::literal::shape_spelling(
                                types[place.0 as int].shape,
                            )
                        }),
                    })
                },
            }
        }),
{
}

/// A resource of the package's own reads by its kind and what names it,
/// and by what it grants where no one line of the resources table does.
pub proof fn law_a_self_issued_resource_reads_by_its_name(
    lexicon: Lexicon,
    kind: crate::resource::ResourceKind,
    material: Vec<Expr>,
    grants: crate::resource::GrantsExpr,
)
    ensures
        ({
            let text = lexicon.expr(Expr::SelfResource { kind, material, grants }, 0);
            let named = if kind == crate::resource::ResourceKind::NonFungible {
                "non-fungible"@
            } else {
                "fungible"@
            };
            let lead = "self-issued("@ + named + lexicon.material(material@) + ")"@;
            &&& lexicon.is_tabled(named, lexicon.material(material@)) ==> text == lead
            &&& !lexicon.is_tabled(named, lexicon.material(material@)) ==> text == lead
                + lexicon.grants_of(grants)
        }),
{
    let text = lexicon.expr(Expr::SelfResource { kind, material, grants }, 0);
    assert(text == lexicon.term(Expr::SelfResource { kind, material, grants }));
    let named = crate::explain::literal::kind_spelling(kind);
    let lead = "self-issued("@ + named + lexicon.material(material@) + ")"@;
    assert(lead + Seq::<char>::empty() =~= lead);
}

/// A package's rendering is its tables and then every method's rendering,
/// each on lines of its own.
pub proof fn law_a_package_shows_every_method(
    metadata: crate::metadata::PackageMetadata,
    i: int,
)
    requires
        0 <= i < metadata.methods.listed().len(),
    ensures
        ({
            let lexicon = crate::explain::census::lexicon_of(metadata);
            let text = lexicon.tables() + crate::text::run_on(lexicon.methods());
            &&& lexicon.tables().is_prefix_of(text)
            &&& crate::explain::content::shows(
                text,
                "\n"@ + lexicon.method(
                    metadata.methods.listed()[i].0@,
                    metadata.methods.listed()[i].1,
                ),
            )
        }),
{
    let lexicon = crate::explain::census::lexicon_of(metadata);
    let parts = lexicon.methods();
    let run = crate::text::run_on(parts);
    let tables = lexicon.tables();
    let text = tables + run;
    assert(lexicon.metadata == metadata);
    crate::explain::content::lemma_run_shows(parts, i);
    crate::explain::content::lemma_shows(tables, run, Seq::empty());
    assert(text =~= tables + run + Seq::<char>::empty());
    crate::explain::content::lemma_shows_within(text, run, parts[i]);
    assert(text.subrange(0, tables.len() as int) =~= tables);
}

/// A slot's row says, past its kind, what its leaf holds and the resource
/// it is denominated in, where it states one.
pub proof fn law_a_slots_row_says_what_it_holds(lexicon: Lexicon, i: int)
    requires
        0 <= i < lexicon.metadata.state.listed().len(),
    ensures
        ({
            let rows = lexicon.metadata.state.listed();
            let line = lexicon.state_lines(rows)[i];
            let held = crate::explain::package::leaf_spelling(
                rows[i].1.element,
                lexicon.metadata.types.held(),
            );
            match rows[i].1.denomination {
                Some(resource) => (", "@ + held + ", denominated in "@ + lexicon.expr(resource, 0)
                    + "\n"@).is_suffix_of(line),
                None => (", "@ + held + "\n"@).is_suffix_of(line),
            }
        }),
{
    let rows = lexicon.metadata.state.listed();
    let line = lexicon.state_lines(rows)[i];
    let held = crate::explain::package::leaf_spelling(
        rows[i].1.element,
        lexicon.metadata.types.held(),
    );
    let last = match rows[i].1.denomination {
        Some(resource) => ", "@ + held + ", denominated in "@ + lexicon.expr(resource, 0) + "\n"@,
        None => ", "@ + held + "\n"@,
    };
    assert(line.subrange(line.len() - last.len(), line.len() as int) =~= last);
}

/// Packed ends are the whole order space exactly where both halves are.
pub proof fn law_packed_ends_are_whole_where_their_halves_are(hi: Box<Expr>, lo: Box<Expr>)
    ensures
        crate::explain::clause::is_bottom(Expr::Pack { hi, lo }) <==> crate::explain::clause::is_bottom(
            *hi,
        ) && crate::explain::clause::is_bottom(*lo),
        crate::explain::clause::is_top(Expr::Pack { hi, lo }) <==> crate::explain::clause::is_top(
            *hi,
        ) && crate::explain::clause::is_top(*lo),
        forall|number: u64|
            #[trigger] crate::explain::clause::is_bottom(Expr::Literal(Value::U64(number)))
                == (number == 0),
        forall|number: u64|
            #[trigger] crate::explain::clause::is_top(Expr::Literal(Value::U64(number))) == (number
                == u64::MAX),
        forall|number: u128|
            #[trigger] crate::explain::clause::is_bottom(Expr::Literal(Value::U128(number)))
                == (number == 0),
        forall|number: u128|
            #[trigger] crate::explain::clause::is_top(Expr::Literal(Value::U128(number))) == (
            number == u128::MAX),
{
}

} // verus!
