//! What a refusal and a requirement say to whoever reads them.
use vstd::prelude::*;

use crate::admission::{Admitted, Asks, Injected, UnmetCondition};
use crate::effect::{EffectTarget, Presence};
use crate::manifest::JudgedLeaf;
use crate::rule::Judged;

verus! {

/// A requirement the protocol put on a call, as a reader meets it: the
/// behaviour, and the resource whose entry it is.
pub open spec fn entry_of(injected: Injected) -> Seq<char> {
    injected.behaviour.label() + " of "@ + crate::explain::literal::address_spelling(
        injected.resource.as_address(),
    )
}

/// Every requirement on every node is listed, under the behaviour and the
/// resource it comes of, with what it asks and when that is heard.
#[verifier::rlimit(60)]
pub proof fn law_every_requirement_is_listed(admitted: Admitted, node: int, k: int)
    requires
        0 <= node < admitted.manifest.nodes@.len(),
        0 <= node < admitted.injected@.len(),
        0 <= k < admitted.injected@[node]@.len(),
    ensures
        ({
            let injected = admitted.injected@[node]@[k];
            let text = crate::text::run_on(crate::explain::refusal::node_sections(admitted));
            &&& crate::explain::content::shows(
                text,
                entry_of(injected) + " — "@ + crate::explain::refusal::asks_spelling(injected.asks)
                    + ", heard "@,
            )
            &&& injected.rule.stage() == Judged::AtAdmission ==> crate::explain::content::shows(
                text,
                ", heard before it is a transaction\n"@,
            )
            &&& injected.rule.stage() == Judged::AtMaterialization
                ==> crate::explain::content::shows(text, ", heard before any body runs\n"@)
            &&& injected.rule.stage() == Judged::InTheLeg ==> crate::explain::content::shows(
                text,
                ", heard inside the call, after a caller may have committed\n"@,
            )
        }),
{
    let injected = admitted.injected@[node]@[k];
    let sections = crate::explain::refusal::node_sections(admitted);
    let text = crate::text::run_on(sections);
    let lines = crate::explain::refusal::requirement_lines(admitted.asked_of(node));
    let run = crate::text::run_on(lines);
    let section = sections[node];
    let called = admitted.manifest.nodes@[node];
    let lead = "  "@ + crate::text::right_text(crate::text::decimal_text(node as nat), 3) + "  "@
        + crate::explain::literal::address_spelling(called.target) + " "@;
    assert(section == lead + (called.method@ + "\n"@ + run));
    assert(section =~= (lead + (called.method@ + "\n"@)) + run + Seq::<char>::empty());
    crate::explain::content::lemma_run_shows(sections, node);
    crate::explain::content::lemma_shows(lead + (called.method@ + "\n"@), run, Seq::empty());
    crate::explain::content::lemma_run_shows(lines, k);
    crate::explain::content::lemma_shows_within(text, section, run);
    crate::explain::content::lemma_shows_within(text, run, lines[k]);
    let asks = crate::explain::refusal::asks_spelling(injected.asks);
    let heard = crate::explain::literal::heard_spelling(injected.rule.stage());
    lemma_line("         "@, entry_of(injected), " — "@, asks, ", heard "@, heard, "\n"@);
    assert(lines[k] == "         "@ + entry_of(injected) + " — "@ + asks + ", heard "@ + (heard
        + "\n"@));
    crate::explain::content::lemma_shows_within(
        text,
        lines[k],
        entry_of(injected) + " — "@ + asks + ", heard "@,
    );
    crate::explain::content::lemma_shows_within(text, lines[k], ", heard "@ + heard + "\n"@);
    lemma_heard(injected.rule.stage());
}

/// What a line says, and when it is heard, stand in it.
proof fn lemma_line(
    pad: Seq<char>,
    entry: Seq<char>,
    dash: Seq<char>,
    asks: Seq<char>,
    lead: Seq<char>,
    heard: Seq<char>,
    end: Seq<char>,
)
    ensures
        crate::explain::content::shows(
            pad + entry + dash + asks + lead + (heard + end),
            entry + dash + asks + lead,
        ),
        crate::explain::content::shows(
            pad + entry + dash + asks + lead + (heard + end),
            lead + heard + end,
        ),
{
    let whole = pad + entry + dash + asks + lead + (heard + end);
    assert(whole =~= pad + (entry + dash + asks + lead) + (heard + end));
    assert(whole =~= (pad + entry + dash + asks) + (lead + heard + end) + Seq::<char>::empty());
    crate::explain::content::lemma_shows(pad, entry + dash + asks + lead, heard + end);
    crate::explain::content::lemma_shows(
        pad + entry + dash + asks,
        lead + heard + end,
        Seq::empty(),
    );
}

/// When a rule is heard, in one text.
proof fn lemma_heard(judged: Judged)
    ensures
        ", heard "@ + crate::explain::literal::heard_spelling(judged) + "\n"@ == (match judged {
            Judged::AtAdmission => ", heard before it is a transaction\n"@,
            Judged::AtMaterialization => ", heard before any body runs\n"@,
            Judged::InTheLeg => ", heard inside the call, after a caller may have committed\n"@,
        }),
{
    reveal_strlit(", heard ");
    reveal_strlit("\n");
    reveal_strlit("before it is a transaction");
    reveal_strlit("before any body runs");
    reveal_strlit("inside the call, after a caller may have committed");
    reveal_strlit(", heard before it is a transaction\n");
    reveal_strlit(", heard before any body runs\n");
    reveal_strlit(", heard inside the call, after a caller may have committed\n");
    let when = ", heard "@ + crate::explain::literal::heard_spelling(judged) + "\n"@;
    match judged {
        Judged::AtAdmission => assert(when =~= ", heard before it is a transaction\n"@),
        Judged::AtMaterialization => assert(when =~= ", heard before any body runs\n"@),
        Judged::InTheLeg => assert(when
            =~= ", heard inside the call, after a caller may have committed\n"@),
    }
}

/// Every node is listed by its number, its target and its method, and one
/// nothing is asked of says so.
#[verifier::rlimit(60)]
pub proof fn law_every_node_is_listed(admitted: Admitted, node: int)
    requires
        0 <= node < admitted.manifest.nodes@.len(),
    ensures
        ({
            let text = crate::text::run_on(crate::explain::refusal::node_sections(admitted));
            let called = admitted.manifest.nodes@[node];
            let named = "  "@ + crate::text::right_text(crate::text::decimal_text(node as nat), 3)
                + "  "@ + crate::explain::literal::address_spelling(called.target) + " "@
                + called.method@ + "\n"@;
            &&& crate::explain::content::shows(text, named)
            &&& node >= admitted.injected@.len() || admitted.injected@[node]@.len() == 0
                ==> crate::explain::content::shows(
                text,
                named + "         nothing — no resource this node moves governs it\n"@,
            )
        }),
{
    let sections = crate::explain::refusal::node_sections(admitted);
    let text = crate::text::run_on(sections);
    let called = admitted.manifest.nodes@[node];
    let named = "  "@ + crate::text::right_text(crate::text::decimal_text(node as nat), 3) + "  "@
        + crate::explain::literal::address_spelling(called.target) + " "@ + called.method@ + "\n"@;
    let rest = if admitted.asked_of(node).len() == 0 {
        "         nothing — no resource this node moves governs it\n"@
    } else {
        crate::text::run_on(
            crate::explain::refusal::requirement_lines(admitted.asked_of(node)),
        )
    };
    assert(sections[node] =~= Seq::<char>::empty() + named + rest);
    assert(sections[node] =~= Seq::<char>::empty() + (named + rest) + Seq::<char>::empty());
    crate::explain::content::lemma_run_shows(sections, node);
    crate::explain::content::lemma_shows(Seq::empty(), named, rest);
    crate::explain::content::lemma_shows(Seq::empty(), named + rest, Seq::empty());
    crate::explain::content::lemma_shows_within(text, sections[node], named);
    crate::explain::content::lemma_shows_within(text, sections[node], named + rest);
}

/// Whether a requirement on a node asks about the presence that was
/// refused.
pub open spec fn asks_about(
    injected: Injected,
    target: EffectTarget,
    required: Presence,
) -> bool {
    exists|k: int|
        0 <= k < injected.rule.all_leaves().len() && #[trigger] injected.rule.all_leaves()[k]
            == (JudgedLeaf::Presence { target, expect: required })
}

/// A refused presence the protocol asked about names every requirement of
/// that node's that asks it, by its behaviour and resource and by what it
/// asks, and says the call carries it because the call moves the resource.
#[verifier::rlimit(60)]
pub proof fn law_a_refused_requirement_is_named(
    admitted: Admitted,
    target: EffectTarget,
    required: Presence,
    node: u32,
    k: int,
)
    requires
        node < admitted.injected@.len(),
        0 <= k < admitted.injected@[node as int]@.len(),
        asks_about(admitted.injected@[node as int]@[k], target, required),
    ensures
        ({
            let text = crate::explain::refusal::refusal_spelling(
                admitted,
                UnmetCondition::Holds { target, required, node: Some(node) },
            );
            let injected = admitted.injected@[node as int]@[k];
            &&& ("node "@ + crate::text::decimal_text(node as nat)).is_prefix_of(text)
            &&& crate::explain::content::shows(text, entry_of(injected))
            &&& crate::explain::content::shows(
                text,
                crate::explain::refusal::asks_spelling(injected.asks),
            )
            &&& "put on the call because the call moves it."@.is_suffix_of(text)
        }),
{
    let asked = admitted.injected@[node as int]@;
    let injected = asked[k];
    let entries = crate::explain::refusal::matched_entries(asked, target, required);
    let questions = crate::explain::refusal::matched_asks(asked, target, required);
    let leaf = JudgedLeaf::Presence { target, expect: required };
    let at = choose|at: int|
        0 <= at < injected.rule.all_leaves().len() && #[trigger] injected.rule.all_leaves()[at]
            == leaf;
    assert(injected.rule.all_leaves().contains(leaf));
    assert(crate::explain::refusal::asks_presence(injected, target, required));
    let names = crate::runs::spliced(entries);
    let asks = crate::runs::spliced(questions);
    assert(entries[k] =~= seq![entry_of(injected)]);
    assert(entries[k][0] == entry_of(injected));
    assert(questions[k][0] == crate::explain::refusal::asks_spelling(injected.asks));
    assert(questions[k] =~= seq![crate::explain::refusal::asks_spelling(injected.asks)]);
    lemma_spliced_holds(entries, k, entry_of(injected));
    lemma_spliced_holds(
        questions,
        k,
        crate::explain::refusal::asks_spelling(injected.asks),
    );
    crate::explain::refusal::law_a_tie_is_reported_as_a_tie(names);
    crate::explain::refusal::law_a_tie_is_reported_as_a_tie(asks);
    let kept = crate::explain::refusal::distinct_texts(names);
    let put = crate::explain::refusal::distinct_texts(asks);
    assert(kept.contains(entry_of(injected)));
    assert(put.contains(crate::explain::refusal::asks_spelling(injected.asks)));
    let i = choose|i: int| 0 <= i < kept.len() && kept[i] == entry_of(injected);
    let j = choose|j: int|
        0 <= j < put.len() && put[j] == crate::explain::refusal::asks_spelling(injected.asks);
    crate::explain::content::lemma_list_shows(kept, " or "@, i);
    crate::explain::content::lemma_list_shows(put, " or "@, j);
    let nodes = admitted.manifest.nodes@;
    let called = if node < nodes.len() {
        "node "@ + crate::text::decimal_text(node as nat) + ", "@
            + crate::explain::literal::address_spelling(nodes[node as int].target) + " "@
            + nodes[node as int].method@
    } else {
        "node "@ + crate::text::decimal_text(node as nat)
    };
    let one = crate::text::joined_text(kept, " or "@);
    let two = crate::text::joined_text(put, " or "@);
    let end = " — and it does not hold. Nothing declared this: it is the resource's own entry, put on the call because the call moves it."@;
    let text = crate::explain::refusal::refusal_spelling(
        admitted,
        UnmetCondition::Holds { target, required, node: Some(node) },
    );
    assert(names.len() > 0);
    assert(text == called + ": "@ + one + " asks that "@ + two + end);
    assert(text =~= (called + ": "@) + one + (" asks that "@ + two + end));
    assert(text =~= (called + ": "@ + one + " asks that "@) + two + end);
    crate::explain::content::lemma_shows(called + ": "@, one, " asks that "@ + two + end);
    crate::explain::content::lemma_shows(called + ": "@ + one + " asks that "@, two, end);
    crate::explain::content::lemma_shows_within(text, one, entry_of(injected));
    crate::explain::content::lemma_shows_within(
        text,
        two,
        crate::explain::refusal::asks_spelling(injected.asks),
    );
    let lead = "node "@ + crate::text::decimal_text(node as nat);
    assert(text.subrange(0, lead.len() as int) =~= lead);
    reveal_strlit(" — and it does not hold. Nothing declared this: it is the resource's own entry, put on the call because the call moves it.");
    reveal_strlit("put on the call because the call moves it.");
    let last = "put on the call because the call moves it."@;
    assert(end.subrange(end.len() - last.len(), end.len() as int) =~= last);
    assert(text.subrange(text.len() - last.len(), text.len() as int) =~= end.subrange(
        end.len() - last.len(),
        end.len() as int,
    ));
}

/// What a run holds, the runs spliced hold.
proof fn lemma_spliced_holds(parts: Seq<Seq<Seq<char>>>, k: int, text: Seq<char>)
    requires
        0 <= k < parts.len(),
        parts[k].contains(text),
    ensures
        crate::runs::spliced(parts).contains(text),
    decreases parts.len(),
{
    let before = crate::runs::spliced(parts.drop_last());
    let whole = crate::runs::spliced(parts);
    if k < parts.len() - 1 {
        assert(parts.drop_last()[k] == parts[k]);
        lemma_spliced_holds(parts.drop_last(), k, text);
        let i = choose|i: int| 0 <= i < before.len() && before[i] == text;
        assert(whole[i] == text);
    } else {
        let i = choose|i: int| 0 <= i < parts[k].len() && parts[k][i] == text;
        assert(whole[before.len() + i] == text);
    }
}

/// Runs that hold nothing splice to nothing.
proof fn lemma_spliced_blank(parts: Seq<Seq<Seq<char>>>)
    requires
        forall|i: int| 0 <= i < parts.len() ==> (#[trigger] parts[i]).len() == 0,
    ensures
        crate::runs::spliced(parts).len() == 0,
    decreases parts.len(),
{
    if parts.len() > 0 {
        assert forall|i: int| 0 <= i < parts.drop_last().len() implies (
        #[trigger] parts.drop_last()[i]).len() == 0 by {
            assert(parts.drop_last()[i] == parts[i]);
        }
        lemma_spliced_blank(parts.drop_last());
        assert(parts.last() == parts[parts.len() - 1]);
    }
}

/// A refused presence no requirement of that node's asks about is the
/// package's own: the refusal says so, names the target in full, and says
/// which way it had to be.
#[verifier::rlimit(60)]
pub proof fn law_a_refused_condition_is_the_packages(
    admitted: Admitted,
    target: EffectTarget,
    required: Presence,
    node: Option<u32>,
)
    requires
        node matches Some(at) ==> at < admitted.injected@.len() ==> forall|k: int|
            0 <= k < admitted.injected@[at as int]@.len() ==> !asks_about(
                #[trigger] admitted.injected@[at as int]@[k],
                target,
                required,
            ),
    ensures
        ({
            let text = crate::explain::refusal::refusal_spelling(
                admitted,
                UnmetCondition::Holds { target, required, node },
            );
            let lead = match node {
                Some(at) => "node "@ + crate::text::decimal_text(at as nat) + ": "@,
                None => Seq::empty(),
            };
            text == lead + ("the package's own condition on "@
                + crate::explain::literal::target_spelling(target)) + (match required {
                Presence::Present => ": it must be there, and it is not"@,
                Presence::Absent => ": it must be not there, and it is not"@,
                Presence::Either => ": it must be either way, and it is not"@,
            }) + " — a rule its author wrote, so its declaration says what it is for"@
        }),
{
    let asked = crate::explain::refusal::asked_at(admitted, node);
    let entries = crate::explain::refusal::matched_entries(asked, target, required);
    let leaf = JudgedLeaf::Presence { target, expect: required };
    assert forall|k: int| 0 <= k < entries.len() implies (#[trigger] entries[k]).len() == 0 by {
        if crate::explain::refusal::asks_presence(asked[k], target, required) {
            let leaves = asked[k].rule.all_leaves();
            let i = choose|i: int| 0 <= i < leaves.len() && leaves[i] == leaf;
            assert(asked[k].rule.all_leaves()[i] == leaf);
            assert(asks_about(admitted.injected@[node->Some_0 as int]@[k], target, required));
        }
    }
    lemma_spliced_blank(entries);
    reveal_strlit(": it must be ");
    reveal_strlit("there");
    reveal_strlit("not there");
    reveal_strlit("either way");
    reveal_strlit(", and it is not — a rule its author wrote, so its declaration says what it is for");
    reveal_strlit(": it must be there, and it is not");
    reveal_strlit(": it must be not there, and it is not");
    reveal_strlit(": it must be either way, and it is not");
    reveal_strlit(" — a rule its author wrote, so its declaration says what it is for");
    let lead = crate::explain::refusal::node_lead(node);
    let named = crate::explain::literal::target_spelling(target);
    let way = match required {
        Presence::Present => ": it must be there, and it is not"@,
        Presence::Absent => ": it must be not there, and it is not"@,
        Presence::Either => ": it must be either way, and it is not"@,
    };
    let end = " — a rule its author wrote, so its declaration says what it is for"@;
    let word = crate::explain::literal::presence_spelling(required);
    assert(": it must be "@ + word
        + ", and it is not — a rule its author wrote, so its declaration says what it is for"@
        =~= way + end);
    let text = crate::explain::refusal::refusal_spelling(
        admitted,
        UnmetCondition::Holds { target, required, node },
    );
    assert(text =~= lead + ("the package's own condition on "@ + named) + (": it must be "@ + word
        + ", and it is not — a rule its author wrote, so its declaration says what it is for"@));
    assert(lead + ("the package's own condition on "@ + named) + (way + end) =~= lead + (
    "the package's own condition on "@ + named) + way + end);
}

/// A refused claim says what the node presented; it names every
/// requirement of that node's that asks for a claim, and is the package's
/// own where none does.
#[verifier::rlimit(60)]
pub proof fn law_a_refused_claim_names_what_was_asked(admitted: Admitted, node: u32, k: int)
    ensures
        ({
            let text = crate::explain::refusal::refusal_spelling(
                admitted,
                UnmetCondition::Satisfies { node },
            );
            &&& ("node "@ + crate::text::decimal_text(node as nat) + " presented "@).is_prefix_of(
                text,
            )
            &&& node < admitted.injected@.len() && 0 <= k
                < admitted.injected@[node as int]@.len() && asks_a_claim(
                admitted.injected@[node as int]@[k],
            ) ==> crate::explain::content::shows(
                text,
                entry_of(admitted.injected@[node as int]@[k]),
            ) && crate::explain::content::shows(text, "what the protocol asked for: "@)
            &&& (node < admitted.injected@.len() ==> forall|i: int|
                0 <= i < admitted.injected@[node as int]@.len() ==> !asks_a_claim(
                    #[trigger] admitted.injected@[node as int]@[i],
                )) ==> ", and the package's own gate is not satisfied by it"@.is_suffix_of(text)
        }),
{
    let asked = admitted.asked_of(node as int);
    let entries = crate::explain::refusal::claim_entries(asked);
    let names = crate::runs::spliced(entries);
    let lead = "node "@ + crate::text::decimal_text(node as nat) + " presented "@;
    let shown = crate::explain::refusal::presented_spelling(
        admitted.manifest.nodes@,
        node as int,
    );
    let text = crate::explain::refusal::refusal_spelling(
        admitted,
        UnmetCondition::Satisfies { node },
    );
    assert(text.subrange(0, lead.len() as int) =~= lead);
    if node < admitted.injected@.len() && 0 <= k < admitted.injected@[node as int]@.len()
        && asks_a_claim(admitted.injected@[node as int]@[k]) {
        let injected = asked[k];
        assert(crate::explain::refusal::asks_claim(injected));
        assert(entries[k][0] == entry_of(injected));
        lemma_spliced_holds(entries, k, entry_of(injected));
        let i = choose|i: int| 0 <= i < names.len() && names[i] == entry_of(injected);
        let list = crate::text::joined_text(names, ", "@);
        crate::explain::content::lemma_list_shows(names, ", "@, i);
        let middle = ", and it does not satisfy what the protocol asked for: "@;
        assert(text =~= (lead + shown + middle) + list + Seq::<char>::empty());
        crate::explain::content::lemma_shows(lead + shown + middle, list, Seq::empty());
        crate::explain::content::lemma_shows_within(text, list, names[i]);
        reveal_strlit(", and it does not satisfy what the protocol asked for: ");
        reveal_strlit("what the protocol asked for: ");
        let said = "what the protocol asked for: "@;
        let first = middle.take(middle.len() - said.len());
        assert(middle =~= first + said + Seq::<char>::empty());
        assert(text =~= (lead + shown + first) + said + list);
        crate::explain::content::lemma_shows(lead + shown + first, said, list);
    }
    if node < admitted.injected@.len() ==> forall|i: int|
        0 <= i < admitted.injected@[node as int]@.len() ==> !asks_a_claim(
            #[trigger] admitted.injected@[node as int]@[i],
        ) {
        assert forall|i: int| 0 <= i < entries.len() implies (#[trigger] entries[i]).len() == 0 by {
            assert(!asks_a_claim(admitted.injected@[node as int]@[i]));
            assert(!crate::explain::refusal::asks_claim(asked[i]));
        }
        lemma_spliced_blank(entries);
        let last = ", and the package's own gate is not satisfied by it"@;
        assert(text.subrange(text.len() - last.len(), text.len() as int) =~= last);
    }
}

/// Whether a requirement asks for a claim.
pub open spec fn asks_a_claim(injected: Injected) -> bool {
    exists|k: int|
        0 <= k < injected.rule.all_leaves().len() && #[trigger] injected.rule.all_leaves()[k]
            is Claim
}

/// What a requirement asks reads as it is: that the moving party is not
/// halted, or its entry's rule.
pub proof fn law_a_requirement_reads_as_it_asks(asks: Asks)
    ensures
        match asks {
            Asks::Unhalted => crate::explain::refusal::asks_spelling(asks)
                == "the moving party is not halted"@,
            Asks::Entry(rule) => crate::explain::refusal::asks_spelling(asks)
                == crate::explain::record::sealed_spelling(rule, None),
        },
{
}

/// A refused claim shows every claim the node presented, and says nothing
/// was where nothing was.
#[verifier::rlimit(60)]
pub proof fn law_a_refused_claim_shows_what_was_presented(admitted: Admitted, node: u32, k: int)
    requires
        node < admitted.manifest.nodes@.len(),
    ensures
        ({
            let text = crate::explain::refusal::refusal_spelling(
                admitted,
                UnmetCondition::Satisfies { node },
            );
            let evidence = admitted.manifest.nodes@[node as int].evidence@;
            &&& evidence.len() == 0 ==> ("node "@ + crate::text::decimal_text(node as nat)
                + " presented nothing, and "@).is_prefix_of(text)
            &&& 0 <= k < evidence.len() ==> crate::explain::content::shows(
                text,
                crate::explain::literal::claim_spelling(evidence[k]),
            )
        }),
{
    let evidence = admitted.manifest.nodes@[node as int].evidence@;
    let text = crate::explain::refusal::refusal_spelling(
        admitted,
        UnmetCondition::Satisfies { node },
    );
    let lead = "node "@ + crate::text::decimal_text(node as nat) + " presented "@;
    let shown = crate::explain::refusal::presented_spelling(
        admitted.manifest.nodes@,
        node as int,
    );
    let rest = text.skip((lead + shown).len() as int);
    assert(text =~= lead + shown + rest);
    crate::explain::content::lemma_shows(lead, shown, rest);
    if 0 <= k < evidence.len() {
        let texts = crate::explain::refusal::claim_spellings(evidence);
        crate::explain::content::lemma_list_shows(texts, ", "@, k);
        crate::explain::content::lemma_shows_within(text, shown, texts[k]);
    }
    if evidence.len() == 0 {
        reveal_strlit(" presented ");
        reveal_strlit("nothing");
        reveal_strlit(" presented nothing, and ");
        reveal_strlit(", and it does not satisfy what the protocol asked for: ");
        reveal_strlit(", and the package's own gate is not satisfied by it");
        let said = "node "@ + crate::text::decimal_text(node as nat) + " presented nothing, and "@;
        assert(text.subrange(0, said.len() as int) =~= said);
    }
}

/// A condition nothing could have answered is refused as that, at the node
/// it was asked of where there is one.
pub proof fn law_an_unanswerable_condition_says_so(admitted: Admitted, node: Option<u32>)
    ensures
        ({
            let text = crate::explain::refusal::refusal_spelling(
                admitted,
                UnmetCondition::Unanswerable { node },
            );
            &&& node matches Some(at) ==> ("node "@ + crate::text::decimal_text(at as nat)
                + ": "@).is_prefix_of(text)
            &&& crate::explain::content::shows(
                text,
                "a condition nothing about committed state could have satisfied."@,
            )
        }),
{
    let text = crate::explain::refusal::refusal_spelling(
        admitted,
        UnmetCondition::Unanswerable { node },
    );
    reveal_strlit("a condition nothing about committed state could have satisfied. The declaration sent it to a judge that reads state, and it asks about something else — so it was refused rather than waved through.");
    reveal_strlit("a condition nothing about committed state could have satisfied.");
    let lead = crate::explain::refusal::node_lead(node);
    let said = "a condition nothing about committed state could have satisfied."@;
    let all = "a condition nothing about committed state could have satisfied. The declaration sent it to a judge that reads state, and it asks about something else — so it was refused rather than waved through."@;
    let rest = all.skip(said.len() as int);
    assert(all.take(said.len() as int) =~= said);
    assert(all =~= said + rest);
    assert(text =~= lead + said + rest);
    crate::explain::content::lemma_shows(lead, said, rest);
    assert(text.subrange(0, lead.len() as int) =~= lead);
}

} // verus!
