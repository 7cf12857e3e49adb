//! What the protocol asked of a transaction, and why one was refused, as
//! text.
use vstd::prelude::*;

use crate::admission::{Admitted, Asks, Injected, UnmetCondition};
use crate::effect::{EffectTarget, Presence};
use crate::explain::literal::{address_text, claim_text, heard, presence_text, target_text};
use crate::explain::record::sealed_rule;
use crate::manifest::{JudgedLeaf, Node};
use crate::presented::Claim;
use crate::text::{cat2, cat3, cat4, cat6, concat, decimal, join, same_text, to_the_right};

verus! {

/// The texts of a run that none before them is, in the order they were
/// met.
pub open spec fn distinct_texts(parts: Seq<Seq<char>>) -> Seq<Seq<char>>
    decreases parts.len(),
{
    if parts.len() == 0 {
        Seq::empty()
    } else {
        let before = distinct_texts(parts.drop_last());
        if before.contains(parts.last()) {
            before
        } else {
            before.push(parts.last())
        }
    }
}

/// Distinct renderings, in the order they were met, joined as
/// alternatives.
///
/// A tie is reported as a tie: two requirements the verdict cannot
/// separate read as one or the other, and two that say the same thing
/// collapse to the one thing they say.
pub fn joined(parts: &Vec<String>) -> (r: String)
    ensures
        r@ == crate::text::joined_text(distinct_texts(crate::text::texts(parts@)), " or "@),
{
    let ghost all = crate::text::texts(parts@);
    let mut distinct: Vec<String> = Vec::new();
    let mut i: usize = 0;
    assert(all.take(0) =~= Seq::empty());
    assert(crate::text::texts(distinct@) =~= Seq::empty());
    while i < parts.len()
        invariant
            i <= parts.len(),
            all == crate::text::texts(parts@),
            crate::text::texts(distinct@) == distinct_texts(all.take(i as int)),
        decreases parts.len() - i,
    {
        let ghost met = crate::text::texts(distinct@);
        proof {
            let longer = all.take(i as int + 1);
            assert(longer.drop_last() =~= all.take(i as int));
            assert(longer.last() == parts@[i as int]@);
        }
        let mut known = false;
        let mut k: usize = 0;
        while k < distinct.len()
            invariant
                i < parts.len(),
                k <= distinct.len(),
                met == crate::text::texts(distinct@),
                known == (exists|j: int| 0 <= j < k && met[j] == parts@[i as int]@),
            decreases distinct.len() - k,
        {
            if same_text(distinct[k].as_str(), parts[i].as_str()) {
                known = true;
                assert(met[k as int] == parts@[i as int]@);
            }
            k = k + 1;
        }
        if !known {
            distinct.push(parts[i].clone());
            assert(crate::text::texts(distinct@) =~= met.push(parts@[i as int]@));
        }
        i = i + 1;
    }
    assert(all.take(i as int) =~= all);
    join(&distinct, " or ")
}

/// What an injected requirement asks, spelled.
pub open spec fn asks_spelling(asks: Asks) -> Seq<char> {
    match asks {
        Asks::Entry(entry) => crate::explain::record::sealed_spelling(entry, None),
        Asks::Unhalted => "the moving party is not halted"@,
    }
}

/// What an injected requirement asks.
fn asks_text(asks: &Asks) -> (r: String)
    ensures
        r@ == asks_spelling(*asks),
{
    match asks {
        Asks::Entry(entry) => sealed_rule(entry, None),
        Asks::Unhalted => "the moving party is not halted".to_owned(),
    }
}

/// The entry an injected requirement came from, spelled.
pub open spec fn entry_spelling(injected: Injected) -> Seq<char> {
    injected.behaviour.label() + " of "@ + crate::explain::literal::address_spelling(
        injected.resource.as_address(),
    )
}

/// The entry an injected requirement came from.
fn entry_text(injected: &Injected) -> (r: String)
    ensures
        r@ == entry_spelling(*injected),
{
    cat3(
        injected.behaviour.word(),
        " of ",
        address_text(injected.resource.address()).as_str(),
    )
}

/// The line of each requirement the protocol put on a node.
pub open spec fn requirement_lines(injected: Seq<Injected>) -> Seq<Seq<char>> {
    Seq::new(
        injected.len(),
        |i: int|
            "         "@ + entry_spelling(injected[i]) + " — "@ + asks_spelling(injected[i].asks)
                + ", heard "@ + (crate::explain::literal::heard_spelling(injected[i].rule.stage())
                + "\n"@),
    )
}

/// What the protocol asked of each node.
pub open spec fn node_sections(admitted: Admitted) -> Seq<Seq<char>> {
    let nodes = admitted.manifest.nodes@;
    Seq::new(
        nodes.len(),
        |i: int|
            "  "@ + crate::text::right_text(crate::text::decimal_text(i as nat), 3) + "  "@
                + crate::explain::literal::address_spelling(nodes[i].target) + " "@ + (
            nodes[i].method@ + "\n"@ + (if admitted.asked_of(i).len() == 0 {
                "         nothing — no resource this node moves governs it\n"@
            } else {
                crate::text::run_on(requirement_lines(admitted.asked_of(i)))
            })),
    )
}

/// The lines of what the protocol put on a node.
fn requirements(injected: &Vec<Injected>) -> (r: String)
    ensures
        r@ == crate::text::run_on(requirement_lines(injected@)),
{
    let mut lines: Vec<String> = Vec::new();
    let mut i: usize = 0;
    while i < injected.len()
        invariant
            i <= injected.len(),
            lines.len() == i,
            forall|j: int|
                0 <= j < i ==> (#[trigger] lines@[j])@ == requirement_lines(injected@)[j],
        decreases injected.len() - i,
    {
        let one = &injected[i];
        let stage = cat2(heard(one.rule.judged()), "\n");
        lines.push(
            cat6(
                "         ",
                entry_text(one).as_str(),
                " — ",
                asks_text(&one.asks).as_str(),
                ", heard ",
                stage.as_str(),
            ),
        );
        i = i + 1;
    }
    assert(crate::text::texts(lines@) =~= requirement_lines(injected@));
    concat(&lines)
}

/// What the protocol asked of a transaction, which no declaration
/// mentions.
///
/// Every requirement here comes from a resource rather than from a
/// signature: a package will not declare a rule it does not want. Marked
/// as the protocol's for that reason, and each one names the entry it came
/// from, because the rule alone says what must hold and cannot say who
/// asked.
///
/// A node the protocol asked nothing of is listed anyway. The absence is
/// the answer a reader came for.
pub fn explain_requirements(admitted: &Admitted) -> (r: String)
    ensures
        r@ == "required by the protocol, from the resources this transaction moves\n"@
            + crate::text::run_on(node_sections(*admitted)),
{
    let nodes = &admitted.manifest.nodes;
    let ghost all = node_sections(*admitted);
    let mut sections: Vec<String> = Vec::new();
    let mut index: usize = 0;
    while index < nodes.len()
        invariant
            index <= nodes.len(),
            *nodes == admitted.manifest.nodes,
            all == node_sections(*admitted),
            sections.len() == index,
            forall|j: int| 0 <= j < index ==> (#[trigger] sections@[j])@ == all[j],
        decreases nodes.len() - index,
    {
        let node = &nodes[index];
        let asked = if index < admitted.injected.len() && admitted.injected[index].len() > 0 {
            requirements(&admitted.injected[index])
        } else {
            "         nothing — no resource this node moves governs it\n".to_owned()
        };
        let called = cat3(node.method.as_str(), "\n", asked.as_str());
        sections.push(
            cat6(
                "  ",
                to_the_right(decimal(index as u128).as_str(), 3).as_str(),
                "  ",
                address_text(node.target).as_str(),
                " ",
                called.as_str(),
            ),
        );
        index = index + 1;
    }
    assert(crate::text::texts(sections@) =~= all);
    cat2(
        "required by the protocol, from the resources this transaction moves\n",
        concat(&sections).as_str(),
    )
}

/// Whether a requirement's rule asks at some leaf that `target` be what
/// `required` says.
pub open spec fn asks_presence(
    injected: Injected,
    target: EffectTarget,
    required: Presence,
) -> bool {
    injected.rule.all_leaves().contains(JudgedLeaf::Presence { target, expect: required })
}

/// Whether a requirement's rule asks at some leaf for a claim.
pub open spec fn asks_claim(injected: Injected) -> bool {
    let leaves = injected.rule.all_leaves();
    exists|i: int| 0 <= i < leaves.len() && (#[trigger] leaves[i]) is Claim
}

/// Whether a requirement's rule asks at some leaf that `target` be what
/// `required` says.
fn names_presence(injected: &Injected, target: &EffectTarget, required: Presence) -> (r: bool)
    ensures
        r == asks_presence(*injected, *target, required),
{
    let leaves = injected.rule.leaves();
    let ghost all = injected.rule.all_leaves();
    let mut i: usize = 0;
    while i < leaves.len()
        invariant
            i <= leaves.len(),
            leaves@.unref() == all,
            all == injected.rule.all_leaves(),
            forall|j: int|
                0 <= j < i ==> #[trigger] all[j] != (JudgedLeaf::Presence {
                    target: *target,
                    expect: required,
                }),
        decreases leaves.len() - i,
    {
        assert(leaves@.unref()[i as int] == *leaves@[i as int]);
        match leaves[i] {
            JudgedLeaf::Presence { target: named, expect } => {
                if *named == *target && *expect == required {
                    assert(all[i as int] == (JudgedLeaf::Presence {
                        target: *target,
                        expect: required,
                    }));
                    return true;
                }
            },
            _ => {},
        }
        i = i + 1;
    }
    false
}

/// Whether a requirement's rule asks at some leaf for a claim.
fn names_claim(injected: &Injected) -> (r: bool)
    ensures
        r == asks_claim(*injected),
{
    let leaves = injected.rule.leaves();
    let ghost all = injected.rule.all_leaves();
    let mut i: usize = 0;
    while i < leaves.len()
        invariant
            i <= leaves.len(),
            leaves@.unref() == all,
            all == injected.rule.all_leaves(),
            forall|j: int| 0 <= j < i ==> !((#[trigger] all[j]) is Claim),
        decreases leaves.len() - i,
    {
        assert(leaves@.unref()[i as int] == *leaves@[i as int]);
        match leaves[i] {
            JudgedLeaf::Claim(_) => {
                assert(all[i as int] is Claim);
                return true;
            },
            _ => {},
        }
        i = i + 1;
    }
    false
}

/// The entries a leaf of committed state could have come from, one run of
/// none or one for each requirement.
pub open spec fn matched_entries(
    injected: Seq<Injected>,
    target: EffectTarget,
    required: Presence,
) -> Seq<Seq<Seq<char>>> {
    Seq::new(
        injected.len(),
        |i: int|
            if asks_presence(injected[i], target, required) {
                seq![entry_spelling(injected[i])]
            } else {
                Seq::empty()
            },
    )
}

/// What the requirements a leaf could have come from ask, on the same
/// terms.
pub open spec fn matched_asks(
    injected: Seq<Injected>,
    target: EffectTarget,
    required: Presence,
) -> Seq<Seq<Seq<char>>> {
    Seq::new(
        injected.len(),
        |i: int|
            if asks_presence(injected[i], target, required) {
                seq![asks_spelling(injected[i].asks)]
            } else {
                Seq::empty()
            },
    )
}

/// The entries of the requirements that ask for a claim.
pub open spec fn claim_entries(injected: Seq<Injected>) -> Seq<Seq<Seq<char>>> {
    Seq::new(
        injected.len(),
        |i: int|
            if asks_claim(injected[i]) {
                seq![entry_spelling(injected[i])]
            } else {
                Seq::empty()
            },
    )
}

/// What the protocol asked of the node a verdict points at, where it
/// points at one.
pub open spec fn asked_at(admitted: Admitted, node: Option<u32>) -> Seq<Injected> {
    match node {
        Some(at) => admitted.asked_of(at as int),
        None => Seq::empty(),
    }
}

/// A node by its number, spelled, where a verdict names one.
pub open spec fn node_lead(node: Option<u32>) -> Seq<char> {
    match node {
        Some(at) => "node "@ + crate::text::decimal_text(at as nat) + ": "@,
        None => Seq::empty(),
    }
}

/// The refusal a leaf of committed state reads back to, spelled: the
/// package's own condition where nothing the node was asked matches, and
/// otherwise every entry the leaf could have come from.
pub open spec fn presence_refusal(
    admitted: Admitted,
    target: EffectTarget,
    required: Presence,
    node: Option<u32>,
) -> Seq<char> {
    let asked = asked_at(admitted, node);
    let entries = crate::runs::spliced(matched_entries(asked, target, required));
    let asks = crate::runs::spliced(matched_asks(asked, target, required));
    if entries.len() == 0 {
        node_lead(node) + "the package's own condition on "@
            + crate::explain::literal::target_spelling(target) + ": it must be "@
            + crate::explain::literal::presence_spelling(required)
            + ", and it is not — a rule its author wrote, so its declaration says what it is for"@
    } else {
        let at = node->0 as int;
        let nodes = admitted.manifest.nodes@;
        let called = if at < nodes.len() {
            "node "@ + crate::text::decimal_text(at as nat) + ", "@
                + crate::explain::literal::address_spelling(nodes[at].target) + " "@
                + nodes[at].method@
        } else {
            "node "@ + crate::text::decimal_text(at as nat)
        };
        called + ": "@ + crate::text::joined_text(distinct_texts(entries), " or "@)
            + " asks that "@ + crate::text::joined_text(distinct_texts(asks), " or "@)
            + " — and it does not hold. Nothing declared this: it is the resource's own entry, put on the call because the call moves it."@
    }
}

/// A node by its number, where a verdict names one.
fn lead(node: Option<u32>) -> (r: String)
    ensures
        r@ == node_lead(node),
{
    match node {
        Some(at) => cat3("node ", decimal(at as u128).as_str(), ": "),
        None => String::new(),
    }
}

/// The refusal a leaf of committed state reads back to.
///
/// The asking node's own requirements and nobody else's, and every one the
/// leaf could have come from, not whichever was written first: resolving a
/// holding hashes the party and the badge together, so entries asking
/// about one holding produce requirements over the same leaf, and a
/// reading that named one would be picking by declaration order.
fn unmet_presence(
    admitted: &Admitted,
    target: &EffectTarget,
    required: Presence,
    node: Option<u32>,
) -> (r: String)
    ensures
        r@ == presence_refusal(*admitted, *target, required, node),
{
    let ghost asked = asked_at(*admitted, node);
    let ghost named = matched_entries(asked, *target, required);
    let ghost said = matched_asks(asked, *target, required);
    let mut entries: Vec<String> = Vec::new();
    let mut asks: Vec<String> = Vec::new();
    assert(crate::text::texts(entries@) =~= Seq::empty());
    assert(crate::text::texts(asks@) =~= Seq::empty());
    match node {
        Some(at) if (at as usize) < admitted.injected.len() => {
            let injected = &admitted.injected[at as usize];
            let mut i: usize = 0;
            assert(named.take(0) =~= Seq::empty());
            assert(said.take(0) =~= Seq::empty());
            while i < injected.len()
                invariant
                    i <= injected.len(),
                    injected@ == asked,
                    named == matched_entries(asked, *target, required),
                    said == matched_asks(asked, *target, required),
                    crate::text::texts(entries@) == crate::runs::spliced(named.take(i as int)),
                    crate::text::texts(asks@) == crate::runs::spliced(said.take(i as int)),
                decreases injected.len() - i,
            {
                let ghost before = crate::text::texts(entries@);
                let ghost heard_before = crate::text::texts(asks@);
                if names_presence(&injected[i], target, required) {
                    entries.push(entry_text(&injected[i]));
                    asks.push(asks_text(&injected[i].asks));
                }
                proof {
                    crate::runs::lemma_one_more(named, i as int);
                    crate::runs::lemma_one_more(said, i as int);
                    assert(crate::text::texts(entries@) =~= before + named[i as int]);
                    assert(crate::text::texts(asks@) =~= heard_before + said[i as int]);
                }
                i = i + 1;
            }
            assert(named.take(i as int) =~= named);
            assert(said.take(i as int) =~= said);
        },
        _ => {
            assert(named =~= Seq::empty());
            assert(said =~= Seq::empty());
        },
    }
    assert(crate::text::texts(entries@).len() == entries@.len());
    let at: usize = match node {
        Some(at) => at as usize,
        None => 0,
    };
    if entries.len() == 0 {
        return cat6(
            lead(node).as_str(),
            "the package's own condition on ",
            target_text(target).as_str(),
            ": it must be ",
            presence_text(required),
            ", and it is not — a rule its author wrote, so its declaration says what it is for",
        );
    }
    assert(node is Some);
    let called = if at < admitted.manifest.nodes.len() {
        let node = &admitted.manifest.nodes[at];
        cat6(
            "node ",
            decimal(at as u128).as_str(),
            ", ",
            address_text(node.target).as_str(),
            " ",
            node.method.as_str(),
        )
    } else {
        cat2("node ", decimal(at as u128).as_str())
    };
    cat6(
        called.as_str(),
        ": ",
        joined(&entries).as_str(),
        " asks that ",
        joined(&asks).as_str(),
        " — and it does not hold. Nothing declared this: it is the resource's own entry, put on the call because the call moves it.",
    )
}

/// What a node presented, spelled.
pub open spec fn presented_spelling(nodes: Seq<Node>, at: int) -> Seq<char> {
    if at >= nodes.len() {
        "nothing this can see"@
    } else if nodes[at].evidence@.len() == 0 {
        "nothing"@
    } else {
        crate::text::joined_text(claim_spellings(nodes[at].evidence@), ", "@)
    }
}

/// Claims, each spelled.
pub open spec fn claim_spellings(claims: Seq<Claim>) -> Seq<Seq<char>> {
    Seq::new(claims.len(), |i: int| crate::explain::literal::claim_spelling(claims[i]))
}

/// Claims, separated by commas.
fn claims_text(claims: &Vec<Claim>) -> (r: String)
    ensures
        r@ == crate::text::joined_text(claim_spellings(claims@), ", "@),
{
    let mut rendered: Vec<String> = Vec::new();
    let mut i: usize = 0;
    while i < claims.len()
        invariant
            i <= claims.len(),
            rendered.len() == i,
            forall|j: int|
                0 <= j < i ==> (#[trigger] rendered@[j])@ == claim_spellings(claims@)[j],
        decreases claims.len() - i,
    {
        rendered.push(claim_text(&claims[i]));
        i = i + 1;
    }
    assert(crate::text::texts(rendered@) =~= claim_spellings(claims@));
    join(&rendered, ", ")
}

/// The refusal a rule over presented claims reads back to, spelled.
pub open spec fn claims_refusal(admitted: Admitted, node: u32) -> Seq<char> {
    let entries = crate::runs::spliced(claim_entries(admitted.asked_of(node as int)));
    let lead = "node "@ + crate::text::decimal_text(node as nat) + " presented "@
        + presented_spelling(admitted.manifest.nodes@, node as int);
    if entries.len() == 0 {
        lead + ", and the package's own gate is not satisfied by it"@
    } else {
        lead + ", and it does not satisfy what the protocol asked for: "@
            + crate::text::joined_text(entries, ", "@)
    }
}

/// The refusal a rule over presented claims reads back to.
fn unsatisfied_claims(admitted: &Admitted, node: u32) -> (r: String)
    ensures
        r@ == claims_refusal(*admitted, node),
{
    let at = node as usize;
    let ghost injected = admitted.asked_of(node as int);
    let ghost named = claim_entries(injected);
    let mut asked: Vec<String> = Vec::new();
    assert(crate::text::texts(asked@) =~= Seq::empty());
    if at < admitted.injected.len() {
        let held = &admitted.injected[at];
        let mut i: usize = 0;
        assert(named.take(0) =~= Seq::empty());
        while i < held.len()
            invariant
                i <= held.len(),
                held@ == injected,
                named == claim_entries(injected),
                crate::text::texts(asked@) == crate::runs::spliced(named.take(i as int)),
            decreases held.len() - i,
        {
            let ghost before = crate::text::texts(asked@);
            if names_claim(&held[i]) {
                asked.push(entry_text(&held[i]));
            }
            proof {
                crate::runs::lemma_one_more(named, i as int);
                assert(crate::text::texts(asked@) =~= before + named[i as int]);
            }
            i = i + 1;
        }
        assert(named.take(i as int) =~= named);
    } else {
        assert(named =~= Seq::empty());
    }
    assert(crate::text::texts(asked@).len() == asked@.len());
    let presented = if at >= admitted.manifest.nodes.len() {
        "nothing this can see".to_owned()
    } else if admitted.manifest.nodes[at].evidence.len() == 0 {
        "nothing".to_owned()
    } else {
        claims_text(&admitted.manifest.nodes[at].evidence)
    };
    let lead = cat4("node ", decimal(node as u128).as_str(), " presented ", presented.as_str());
    if asked.len() == 0 {
        return cat2(lead.as_str(), ", and the package's own gate is not satisfied by it");
    }
    cat3(
        lead.as_str(),
        ", and it does not satisfy what the protocol asked for: ",
        join(&asked, ", ").as_str(),
    )
}

/// Why a transaction was refused, spelled.
pub open spec fn refusal_spelling(admitted: Admitted, unmet: UnmetCondition) -> Seq<char> {
    match unmet {
        UnmetCondition::Holds { target, required, node } => presence_refusal(
            admitted,
            target,
            required,
            node,
        ),
        UnmetCondition::Satisfies { node } => claims_refusal(admitted, node),
        UnmetCondition::Unanswerable { node } => node_lead(node)
            + "a condition nothing about committed state could have satisfied. The declaration sent it to a judge that reads state, and it asks about something else — so it was refused rather than waved through."@,
    }
}

/// Why a transaction was refused, in the terms whoever it refused would
/// read it.
///
/// A verdict points and carries no rule. What it points at, for the
/// condition that fires most, is a key: a hash of the party and the badge
/// that inverts to neither. This is the derivation that reads it back: the
/// verdict names the node whose frame asked, so the requirements to match
/// the key against are that node's alone, and a refusal names the
/// resource, the behaviour, and the question.
///
/// A condition matching nothing that node was asked is the package's own,
/// and saying so is half the answer on its own.
pub fn explain_refusal(admitted: &Admitted, unmet: &UnmetCondition) -> (r: String)
    ensures
        r@ == refusal_spelling(*admitted, *unmet),
{
    match unmet {
        UnmetCondition::Holds { target, required, node } => unmet_presence(
            admitted,
            target,
            *required,
            *node,
        ),
        UnmetCondition::Satisfies { node } => unsatisfied_claims(admitted, *node),
        UnmetCondition::Unanswerable { node } => cat2(
            lead(*node).as_str(),
            "a condition nothing about committed state could have satisfied. The declaration sent it to a judge that reads state, and it asks about something else — so it was refused rather than waved through.",
        ),
    }
}

/// Requirements one leaf cannot separate read as alternatives: what is
/// joined is every text there is, in the order it was first met, and none
/// of them twice.
pub proof fn law_a_tie_is_reported_as_a_tie(parts: Seq<Seq<char>>)
    ensures
        distinct_texts(parts).no_duplicates(),
        forall|part: Seq<char>|
            #[trigger] distinct_texts(parts).contains(part) == parts.contains(part),
    decreases parts.len(),
{
    if parts.len() > 0 {
        let before = parts.drop_last();
        let met = distinct_texts(before);
        law_a_tie_is_reported_as_a_tie(before);
        let after = distinct_texts(parts);
        assert forall|part: Seq<char>| #[trigger] after.contains(part) == parts.contains(
            part,
        ) by {
            if parts.contains(part) {
                let k = choose|k: int| 0 <= k < parts.len() && parts[k] == part;
                if k < before.len() {
                    assert(before[k] == part);
                    assert(before.contains(part));
                    assert(met.contains(part));
                    let m = choose|m: int| 0 <= m < met.len() && met[m] == part;
                    assert(after[m] == part);
                } else if !met.contains(part) {
                    assert(after[met.len() as int] == part);
                }
            }
            if after.contains(part) {
                let k = choose|k: int| 0 <= k < after.len() && after[k] == part;
                if k < met.len() {
                    assert(met[k] == part);
                    assert(met.contains(part));
                    assert(before.contains(part));
                    let m = choose|m: int| 0 <= m < before.len() && before[m] == part;
                    assert(parts[m] == part);
                } else {
                    assert(parts[parts.len() - 1] == part);
                }
            }
        }
    }
}

} // verus!
