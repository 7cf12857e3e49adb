//! What an explained refusal at admission shows of the call it points at.
use vstd::prelude::*;

use crate::address::AddressClass;
use crate::admission::{Placed, Refusal};
use crate::cache::MetadataCache;
use crate::graph::{GraphArg, GraphNode, ManifestGraph, ValueRef};
use crate::instance::{InstanceMeta, InstanceRegistry};
use crate::metadata::PackageMetadata;
use crate::presented::Claim;
use crate::rule::Rule;
use crate::signature::MethodSignature;

verus! {

/// Whether a refusal points at a node: the node of the intent it names,
/// the one a flattened order lists at its index, or, where it names no
/// intent and no order was read, the lone graph's.
pub open spec fn points_at(
    intents: Seq<ManifestGraph>,
    order: Option<Seq<(usize, usize)>>,
    at: Placed,
    node: GraphNode,
) -> bool {
    &&& at.node matches Some(index)
    &&& match (at.intent, order) {
        (Some(intent), _) => intent < intents.len() && index < intents[intent as int].nodes@.len()
            && intents[intent as int].nodes@[index as int] == node,
        (None, Some(listed)) => {
            &&& index < listed.len()
            &&& listed[index as int].0 < intents.len()
            &&& listed[index as int].1 < intents[listed[index as int].0 as int].nodes@.len()
            &&& intents[listed[index as int].0 as int].nodes@[listed[index as int].1 as int]
                == node
        },
        (None, None) => intents.len() == 1 && index < intents[0].nodes@.len()
            && intents[0].nodes@[index as int] == node,
    }
}

/// A refusal that points at a node names that node's target, in full, and
/// its method, right after its sentence.
pub proof fn law_a_refusal_names_the_call_it_points_at(
    intents: Seq<ManifestGraph>,
    order: Option<Seq<(usize, usize)>>,
    instances: InstanceRegistry,
    packages: MetadataCache,
    refusal: Refusal,
    node: GraphNode,
)
    requires
        points_at(intents, order, refusal.at, node),
    ensures
        (refusal.sentence@ + "\n  "@ + crate::explain::literal::address_spelling(
            node.target.as_address(),
        ) + " "@ + node.method@).is_prefix_of(
            crate::explain::admission::placed_spelling(
                intents,
                order,
                instances,
                packages,
                refusal,
            ),
        ),
{
    let text = crate::explain::admission::placed_spelling(
        intents,
        order,
        instances,
        packages,
        refusal,
    );
    let lead = refusal.sentence@ + "\n  "@ + crate::explain::literal::address_spelling(
        node.target.as_address(),
    ) + " "@ + node.method@;
    assert(crate::explain::admission::node_at(intents, order, refusal.at) == Some(node));
    assert(text.subrange(0, lead.len() as int) =~= lead);
}

/// A refusal that points at an argument shows it, by its place and by what
/// it is.
pub proof fn law_a_refusal_shows_the_argument_it_points_at(
    intents: Seq<ManifestGraph>,
    order: Option<Seq<(usize, usize)>>,
    instances: InstanceRegistry,
    packages: MetadataCache,
    refusal: Refusal,
    node: GraphNode,
    param: u32,
)
    requires
        points_at(intents, order, refusal.at, node),
        refusal.at.param == Some(param),
        param < node.args@.len(),
    ensures
        crate::explain::content::shows(
            crate::explain::admission::placed_spelling(
                intents,
                order,
                instances,
                packages,
                refusal,
            ),
            "\n  argument "@ + crate::text::decimal_text(param as nat) + ": "@
                + crate::explain::admission::arg_spelling(node.args@[param as int]),
        ),
{
    let text = crate::explain::admission::placed_spelling(
        intents,
        order,
        instances,
        packages,
        refusal,
    );
    assert(crate::explain::admission::node_at(intents, order, refusal.at) == Some(node));
    let call = crate::explain::admission::resolved_call(instances, packages, node);
    let lead = refusal.sentence@ + "\n  "@ + crate::explain::literal::address_spelling(
        node.target.as_address(),
    ) + " "@ + node.method@;
    let shown = crate::explain::admission::argument_line(node, refusal.at);
    let rest = crate::explain::admission::binding_line(call, refusal.at)
        + crate::explain::admission::clause_line(call, refusal.at)
        + crate::explain::admission::gate_lines(refusal);
    assert(text =~= lead + shown + rest);
    crate::explain::content::lemma_shows(lead, shown, rest);
}

/// An argument reads as where it comes from: a literal by its value, an
/// edge by the output and the node of it, a give by itself and its member,
/// a socket by its number.
pub proof fn law_an_argument_reads_as_its_source(arg: GraphArg)
    ensures
        ({
            let text = crate::explain::admission::arg_spelling(arg);
            match arg {
                GraphArg::Literal(value) => text == "the literal "@
                    + crate::explain::literal::value_spelling(value),
                GraphArg::Value { source, .. } => match source {
                    ValueRef::Edge(edge) => text == "output "@ + crate::text::decimal_text(
                        edge.output as nat,
                    ) + " of node "@ + crate::text::decimal_text(edge.producer as nat)
                        + " of its own intent"@,
                    ValueRef::Give(give) => text == "give "@ + crate::text::decimal_text(
                        give.give as nat,
                    ) + " of member "@ + crate::text::decimal_text(give.member as nat)
                        + " of its own intent"@,
                    ValueRef::Socket(socket) => text == "socket "@ + crate::text::decimal_text(
                        socket as nat,
                    ) + " of its own intent"@,
                },
            }
        }),
{
}

/// Whether a claim was presented.
pub open spec fn was_presented(presented: Seq<Claim>, claim: Claim) -> bool {
    exists|i: int| 0 <= i < presented.len() && #[trigger] presented[i] == claim
}

/// A rule that was not satisfied is shown leaf by leaf: a claim that was
/// presented is met, and one that was not is unmet, with how it would be
/// proven.
#[verifier::rlimit(60)]
pub proof fn law_a_judged_leaf_says_whether_it_was_met(
    claim: Claim,
    presented: Seq<Claim>,
    pad: Seq<char>,
)
    ensures
        ({
            let text = crate::explain::admission::judged_spelling(
                Rule::Require(claim),
                presented,
                pad,
            );
            let named = crate::explain::literal::claim_spelling(claim);
            &&& was_presented(presented, claim) ==> text == "\n"@ + pad + "  met  claim "@ + named
            &&& !was_presented(presented, claim) ==> ("\n"@ + pad + "unmet  claim "@ + named
                + " — proven by "@).is_prefix_of(text)
            &&& !was_presented(presented, claim) && claim.subject.class == AddressClass::Principal
                ==> ("signing in as "@ + crate::explain::literal::address_spelling(
                claim.subject,
            )).is_suffix_of(text)
            &&& !was_presented(presented, claim) && claim.subject.class != AddressClass::Principal
                && claim.instance is None ==> "a holder presenting the badge"@.is_suffix_of(text)
            &&& !was_presented(presented, claim) && claim.subject.class != AddressClass::Principal
                ==> (claim.instance matches Some(id) ==> ("a holder presenting instance "@
                + crate::text::decimal_text(id as nat)).is_suffix_of(text))
        }),
{
    let text = crate::explain::admission::judged_spelling(Rule::Require(claim), presented, pad);
    let named = crate::explain::literal::claim_spelling(claim);
    assert(was_presented(presented, claim) == presented.contains(claim)) by {
        if presented.contains(claim) {
            let i = choose|i: int| 0 <= i < presented.len() && presented[i] == claim;
            assert(presented[i] == claim);
        }
    }
    lemma_met_words();
    if presented.contains(claim) {
        assert(text =~= "\n"@ + pad + (crate::text::right_text("met"@, 5) + "  claim "@) + named);
        assert(text == "\n"@ + pad + "  met  claim "@ + named);
    } else {
        let proof_text = crate::explain::admission::proof_spelling(claim);
        let lead = "\n"@ + pad + "unmet  claim "@ + named;
        assert(text =~= lead + (" — "@ + proof_text)) by {
            assert("\n"@ + pad + crate::text::right_text("unmet"@, 5) + "  claim "@ =~= "\n"@ + pad
                + (crate::text::right_text("unmet"@, 5) + "  claim "@));
        }
        lemma_proof_words(claim);
        let opened = lead + " — proven by "@;
        let tail = " — "@ + proof_text;
        reveal_strlit(" — proven by ");
        reveal_strlit(" — ");
        assert(tail.subrange(0, 13) == " — proven by "@);
        assert(text == lead + tail);
        assert(text.subrange(0, opened.len() as int) =~= lead + tail.subrange(0, 13));
        let rest = proof_text.skip(10);
        assert(text.subrange(text.len() - rest.len(), text.len() as int) =~= rest);
    }
}

/// The words a judged leaf opens with, to one width.
proof fn lemma_met_words()
    ensures
        crate::text::right_text("met"@, 5) + "  claim "@ == "  met  claim "@,
        crate::text::right_text("unmet"@, 5) + "  claim "@ == "unmet  claim "@,
{
    reveal_strlit("met");
    reveal_strlit("unmet");
    reveal_strlit("  claim ");
    reveal_strlit("  met  claim ");
    reveal_strlit("unmet  claim ");
    reveal_strlit(" ");
    reveal_with_fuel(crate::text::blanks_text, 3);
    assert(crate::text::blanks_text(2) =~= " "@ + " "@);
    assert(crate::text::right_text("met"@, 5) + "  claim "@ =~= "  met  claim "@);
    assert(crate::text::right_text("unmet"@, 5) + "  claim "@ =~= "unmet  claim "@);
}

/// How a claim is proven, past the words that open it.
proof fn lemma_proof_words(claim: Claim)
    ensures
        ({
            let text = crate::explain::admission::proof_spelling(claim);
            &&& text.len() >= 10
            &&& (" — "@ + text).subrange(0, 13) == " — proven by "@
            &&& claim.subject.class == AddressClass::Principal ==> text.skip(10)
                == "signing in as "@ + crate::explain::literal::address_spelling(claim.subject)
            &&& claim.subject.class != AddressClass::Principal && claim.instance is None
                ==> text.skip(10) == "a holder presenting the badge"@
            &&& claim.subject.class != AddressClass::Principal ==> (claim.instance matches Some(id)
                ==> text.skip(10) == "a holder presenting instance "@ + crate::text::decimal_text(
                id as nat,
            ))
        }),
{
    reveal_strlit(" — ");
    reveal_strlit(" — proven by ");
    reveal_strlit("proven by signing in as ");
    reveal_strlit("proven by a holder presenting the badge");
    reveal_strlit("proven by a holder presenting instance ");
    reveal_strlit("signing in as ");
    reveal_strlit("a holder presenting the badge");
    reveal_strlit("a holder presenting instance ");
    let text = crate::explain::admission::proof_spelling(claim);
    assert((" — "@ + text).subrange(0, 13) =~= " — proven by "@);
    if claim.subject.class == AddressClass::Principal {
        assert(text.skip(10) =~= "signing in as "@ + crate::explain::literal::address_spelling(
            claim.subject,
        ));
    } else {
        match claim.instance {
            None => assert(text.skip(10) =~= "a holder presenting the badge"@),
            Some(id) => assert(text.skip(10) =~= "a holder presenting instance "@
                + crate::text::decimal_text(id as nat)),
        }
    }
}

/// A judged threshold says how many it asks for and shows every branch,
/// set in one step further.
pub proof fn law_a_judged_threshold_shows_its_branches(
    count: u32,
    rules: Vec<Rule<Claim>>,
    presented: Seq<Claim>,
    pad: Seq<char>,
    i: int,
)
    requires
        0 <= i < rules@.len(),
    ensures
        ({
            let text = crate::explain::admission::judged_spelling(
                Rule::CountOf { count, rules },
                presented,
                pad,
            );
            &&& ("\n"@ + pad + crate::text::decimal_text(count as nat) + " of:"@).is_prefix_of(text)
            &&& crate::explain::content::shows(
                text,
                crate::explain::admission::judged_spelling(rules@[i], presented, pad + "  "@),
            )
        }),
{
    let text = crate::explain::admission::judged_spelling(
        Rule::<Claim>::CountOf { count, rules },
        presented,
        pad,
    );
    let parts = crate::explain::admission::judged_spellings(rules@, presented, pad + "  "@);
    let run = crate::text::run_on(parts);
    let lead = "\n"@ + pad + crate::text::decimal_text(count as nat) + " of:"@;
    assert(text =~= lead + run + Seq::<char>::empty());
    crate::explain::content::lemma_run_shows(parts, i);
    crate::explain::content::lemma_shows(lead, run, Seq::empty());
    crate::explain::content::lemma_shows_within(text, run, parts[i]);
}

/// A refusal over a rule ends with the rule as it was judged; one over no
/// rule shows none.
#[verifier::rlimit(60)]
pub proof fn law_a_refusal_shows_the_rule_it_was_over(
    intents: Seq<ManifestGraph>,
    order: Option<Seq<(usize, usize)>>,
    instances: InstanceRegistry,
    packages: MetadataCache,
    refusal: Refusal,
    node: GraphNode,
)
    requires
        points_at(intents, order, refusal.at, node),
    ensures
        refusal.unsatisfied matches Some((rule, presented)) ==> (
        crate::explain::admission::judged_spelling(rule, presented@, "    "@)).is_suffix_of(
            crate::explain::admission::placed_spelling(
                intents,
                order,
                instances,
                packages,
                refusal,
            ),
        ),
        refusal.unsatisfied is None && refusal.at.param is None && refusal.at.abi is None
            && refusal.at.clause is None ==> (" "@ + node.method@).is_suffix_of(
            crate::explain::admission::placed_spelling(
                intents,
                order,
                instances,
                packages,
                refusal,
            ),
        ),
{
    let text = crate::explain::admission::placed_spelling(
        intents,
        order,
        instances,
        packages,
        refusal,
    );
    assert(crate::explain::admission::node_at(intents, order, refusal.at) == Some(node));
    match refusal.unsatisfied {
        Some((rule, presented)) => {
            let judged = crate::explain::admission::judged_spelling(rule, presented@, "    "@);
            assert(text.subrange(text.len() - judged.len(), text.len() as int) =~= judged);
        },
        None => {
            if refusal.at.param is None && refusal.at.abi is None && refusal.at.clause is None {
                let last = " "@ + node.method@;
                assert(text.subrange(text.len() - last.len(), text.len() as int) =~= last);
            }
        },
    }
}

/// A refusal that points at a binding or a clause of the call it points at
/// shows them as the callee's own declaration reads, where the callee is
/// known: the binding by its place, the clause by its number.
#[verifier::rlimit(60)]
pub proof fn law_a_refusal_shows_the_binding_and_clause_it_points_at(
    intents: Seq<ManifestGraph>,
    order: Option<Seq<(usize, usize)>>,
    instances: InstanceRegistry,
    packages: MetadataCache,
    refusal: Refusal,
    node: GraphNode,
    record: InstanceMeta,
    metadata: PackageMetadata,
    signature: MethodSignature,
)
    requires
        points_at(intents, order, refusal.at, node),
        instances.serving(node.target) == Some(record),
        packages.held(record.package) == Some(metadata),
        metadata.methods.under(crate::table::text_ordinal(node.method@)) == Some(signature),
    ensures
        ({
            let text = crate::explain::admission::placed_spelling(
                intents,
                order,
                instances,
                packages,
                refusal,
            );
            let lexicon = crate::explain::census::lexicon_of(metadata);
            &&& refusal.at.abi matches Some(abi) ==> abi < signature.abi@.len()
                ==> crate::explain::content::shows(
                text,
                "\n  binding "@ + crate::text::decimal_text(abi as nat) + ": "@
                    + lexicon.abi_param(signature.abi@[abi as int], signature.effects@),
            )
            &&& refusal.at.clause matches Some(clause) ==> (
            crate::explain::admission::clause_listing(
                lexicon,
                signature.effects@,
                0,
                clause,
            ) matches Some(listed) ==> crate::explain::content::shows(
                text,
                "\n  clause "@ + crate::text::decimal_text(clause as nat) + ": "@
                    + crate::text::trimmed_text(listed),
            ))
        }),
{
    let text = crate::explain::admission::placed_spelling(
        intents,
        order,
        instances,
        packages,
        refusal,
    );
    assert(crate::explain::admission::node_at(intents, order, refusal.at) == Some(node));
    let call = crate::explain::admission::resolved_call(instances, packages, node);
    assert(call == Some((metadata, signature)));
    let lead = refusal.sentence@ + "\n  "@ + crate::explain::literal::address_spelling(
        node.target.as_address(),
    ) + " "@ + node.method@ + crate::explain::admission::argument_line(node, refusal.at);
    let bound = crate::explain::admission::binding_line(call, refusal.at);
    let listed = crate::explain::admission::clause_line(call, refusal.at);
    let judged = crate::explain::admission::gate_lines(refusal);
    assert(text =~= lead + bound + (listed + judged));
    assert(text =~= (lead + bound) + listed + judged);
    crate::explain::content::lemma_shows(lead, bound, listed + judged);
    crate::explain::content::lemma_shows(lead + bound, listed, judged);
}

} // verus!
