//! A refusal at admission, with the place it points to spelled out.
use vstd::prelude::*;
use vstd::string::StringExecFns;

use crate::address::AddressClass;
use crate::admission::{Placed, Refusal};
use crate::cache::MetadataCache;
use crate::dsl::Clause;
use crate::explain::clause::preorder_len;
use crate::explain::literal::{address_text, claim_text, value_text};
use crate::explain::names::Names;
use crate::graph::{GraphArg, GraphNode, ManifestGraph, ValueRef};
use crate::instance::InstanceRegistry;
use crate::intent::{Intent, IntentTree};
use crate::metadata::PackageMetadata;
use crate::presented::Claim;
use crate::rule::Rule;
use crate::signature::MethodSignature;
use crate::text::{cat2, cat3, cat4, cat5, concat, decimal, to_the_right, trimmed};

verus! {

/// Where each node of a composition stands in the flattened order: the
/// intent it is of, and its place there.
pub type Order = Vec<(usize, usize)>;

/// The node a refusal points at: an intent's own where it names one, and
/// otherwise by the flattened order, which a lone intent's own is.
pub open spec fn node_at(
    intents: Seq<ManifestGraph>,
    order: Option<Seq<(usize, usize)>>,
    at: Placed,
) -> Option<GraphNode> {
    match at.node {
        None => None,
        Some(node) => match at.intent {
            Some(intent) => if intent < intents.len() && node
                < intents[intent as int].nodes@.len() {
                Some(intents[intent as int].nodes@[node as int])
            } else {
                None
            },
            None => match order {
                Some(listed) => if node < listed.len() {
                    let (intent, local) = listed[node as int];
                    if intent < intents.len() && local < intents[intent as int].nodes@.len() {
                        Some(intents[intent as int].nodes@[local as int])
                    } else {
                        None
                    }
                } else {
                    None
                },
                None => if intents.len() == 1 && node < intents[0].nodes@.len() {
                    Some(intents[0].nodes@[node as int])
                } else {
                    None
                },
            },
        },
    }
}

/// The order, as a run, where there is one.
pub open spec fn order_view(order: Option<&Order>) -> Option<Seq<(usize, usize)>> {
    match order {
        Some(listed) => Some(listed@),
        None => None,
    }
}

/// The node a refusal points at.
///
/// An intent-local index is that intent's own. A flattened one numbers the
/// emission order, resolved through `order` where the composition has one;
/// a lone intent's emission order is its author order.
fn placed_node<'a>(
    intents: &Vec<&'a ManifestGraph>,
    order: Option<&Order>,
    at: Placed,
) -> (r: Option<&'a GraphNode>)
    ensures
        match r {
            Some(node) => node_at(intents@.unref(), order_view(order), at) == Some(*node),
            None => node_at(intents@.unref(), order_view(order), at) is None,
        },
{
    let ghost graphs = intents@.unref();
    assert(forall|i: int| 0 <= i < intents@.len() ==> graphs[i] == *(#[trigger] intents@[i]));
    let node = match at.node {
        Some(node) => node as usize,
        None => {
            return None;
        },
    };
    let (intent, local): (usize, usize) = match at.intent {
        Some(intent) => (intent as usize, node),
        None => match order {
            Some(listed) => {
                if node >= listed.len() {
                    return None;
                }
                listed[node]
            },
            None => {
                if intents.len() != 1 {
                    return None;
                }
                (0, node)
            },
        },
    };
    if intent >= intents.len() {
        return None;
    }
    let graph = intents[intent];
    if local >= graph.nodes.len() {
        return None;
    }
    Some(&graph.nodes[local])
}

/// One argument as the composer wrote it, spelled.
pub open spec fn arg_spelling(arg: GraphArg) -> Seq<char> {
    match arg {
        GraphArg::Literal(value) => "the literal "@ + crate::explain::literal::value_spelling(
            value,
        ),
        GraphArg::Value { source, .. } => match source {
            ValueRef::Edge(edge) => "output "@ + crate::text::decimal_text(edge.output as nat)
                + " of node "@ + crate::text::decimal_text(edge.producer as nat)
                + " of its own intent"@,
            ValueRef::Give(give) => "give "@ + crate::text::decimal_text(give.give as nat)
                + " of member "@ + crate::text::decimal_text(give.member as nat)
                + " of its own intent"@,
            ValueRef::Socket(socket) => "socket "@ + crate::text::decimal_text(socket as nat)
                + " of its own intent"@,
        },
    }
}

/// One argument as the composer wrote it.
fn arg_text(arg: &GraphArg) -> (r: String)
    ensures
        r@ == arg_spelling(*arg),
{
    match arg {
        GraphArg::Literal(value) => cat2("the literal ", value_text(value).as_str()),
        GraphArg::Value { source, .. } => match source {
            ValueRef::Edge(edge) => cat5(
                "output ",
                decimal(edge.output as u128).as_str(),
                " of node ",
                decimal(edge.producer as u128).as_str(),
                " of its own intent",
            ),
            ValueRef::Give(give) => cat5(
                "give ",
                decimal(give.give as u128).as_str(),
                " of member ",
                decimal(give.member as u128).as_str(),
                " of its own intent",
            ),
            ValueRef::Socket(socket) => cat3(
                "socket ",
                decimal(*socket as u128).as_str(),
                " of its own intent",
            ),
        },
    }
}

/// What a call resolves to, where it resolves: the package its target
/// runs, and the signature of the method it names there.
pub open spec fn resolved_call(
    instances: InstanceRegistry,
    packages: MetadataCache,
    node: GraphNode,
) -> Option<(PackageMetadata, MethodSignature)> {
    match instances.serving(node.target) {
        None => None,
        Some(record) => match packages.held(record.package) {
            None => None,
            Some(metadata) => match metadata.methods.under(
                crate::table::text_ordinal(node.method@),
            ) {
                None => None,
                Some(signature) => Some((metadata, signature)),
            },
        },
    }
}

/// What a call resolves to, where it resolves.
fn resolve_call<'a>(
    instances: &'a InstanceRegistry,
    packages: &'a MetadataCache,
    node: &GraphNode,
) -> (r: Option<(&'a PackageMetadata, &'a MethodSignature)>)
    ensures
        match r {
            Some((metadata, signature)) => resolved_call(*instances, *packages, *node) == Some(
                (*metadata, *signature),
            ),
            None => resolved_call(*instances, *packages, *node) is None,
        },
{
    let record = match instances.get(node.target) {
        Some(record) => record,
        None => {
            return None;
        },
    };
    let metadata = match packages.get(record.package) {
        Some(metadata) => metadata,
        None => {
            return None;
        },
    };
    match metadata.methods.get(&node.method) {
        Some(signature) => Some((metadata, signature)),
        None => None,
    }
}

/// The binding a refusal is about, as the exports line describes it.
pub open spec fn binding_spelling(
    metadata: PackageMetadata,
    signature: MethodSignature,
    abi: u32,
) -> Option<Seq<char>> {
    if abi < signature.abi@.len() {
        Some(
            crate::explain::census::lexicon_of(metadata).abi_param(
                signature.abi@[abi as int],
                signature.effects@,
            ),
        )
    } else {
        None
    }
}

/// The listing of the top-level clause, from the `from`-th on, that a
/// clause number falls in.
pub open spec fn clause_listing(
    lexicon: crate::explain::names::Lexicon,
    effects: Seq<Clause>,
    from: int,
    clause: u32,
) -> Option<Seq<char>>
    decreases effects.len() - from,
{
    if from < 0 || from >= effects.len() {
        None
    } else {
        let number = crate::explain::clause::capped(
            Clause::preorder(effects.take(from)).len(),
        );
        let after = crate::explain::clause::capped(
            Clause::preorder(effects.take(from + 1)).len(),
        );
        if number <= clause < after {
            Some(lexicon.clause(effects[from], number, ""@))
        } else {
            clause_listing(lexicon, effects, from + 1, clause)
        }
    }
}

/// The binding a refusal is about, described as the exports line
/// describes it, never as an argument, which is a different list.
fn bound_abi(metadata: &PackageMetadata, signature: &MethodSignature, abi: u32) -> (r: Option<
    String,
>)
    ensures
        match r {
            Some(text) => binding_spelling(*metadata, *signature, abi) == Some(text@),
            None => binding_spelling(*metadata, *signature, abi) is None,
        },
{
    if (abi as usize) < signature.abi.len() {
        let names = Names::new(metadata);
        Some(names.abi_param(&signature.abi[abi as usize], &signature.effects))
    } else {
        None
    }
}

/// One clause of the callee's declaration, rendered as its listing numbers
/// it.
fn declared_clause(metadata: &PackageMetadata, signature: &MethodSignature, clause: u32) -> (r:
    Option<String>)
    ensures
        match r {
            Some(text) => clause_listing(
                crate::explain::census::lexicon_of(*metadata),
                signature.effects@,
                0,
                clause,
            ) == Some(text@),
            None => clause_listing(
                crate::explain::census::lexicon_of(*metadata),
                signature.effects@,
                0,
                clause,
            ) is None,
        },
{
    let names = Names::new(metadata);
    let ghost lexicon = names.lexicon();
    let ghost effects = signature.effects@;
    let mut index: u32 = 0;
    let mut i: usize = 0;
    assert(effects.take(0) =~= Seq::empty());
    while i < signature.effects.len()
        invariant
            i <= signature.effects.len(),
            effects == signature.effects@,
            lexicon == names.lexicon(),
            lexicon == crate::explain::census::lexicon_of(*metadata),
            index == crate::explain::clause::capped(
                Clause::preorder(effects.take(i as int)).len(),
            ),
            clause_listing(lexicon, effects, 0, clause) == clause_listing(
                lexicon,
                effects,
                i as int,
                clause,
            ),
        decreases signature.effects.len() - i,
    {
        proof {
            let longer = effects.take(i as int + 1);
            assert(longer.drop_last() =~= effects.take(i as int));
            assert(longer.last() == effects[i as int]);
            crate::explain::clause::lemma_walk_lists_itself(effects[i as int]);
        }
        let from = index;
        index = index.saturating_add(1);
        match &signature.effects[i] {
            Clause::ForEach { body, .. } => {
                assert(body@.take(body@.len() as int) =~= body@);
                index = index.saturating_add(preorder_len(body, body.len()));
            },
            _ => {},
        }
        if from <= clause && clause < index {
            return Some(names.clause(&signature.effects[i], from, ""));
        }
        i = i + 1;
    }
    None
}

/// The proving call that would meet a claim, spelled.
pub open spec fn proof_spelling(claim: Claim) -> Seq<char> {
    if claim.subject.class == AddressClass::Principal {
        "proven by signing in as "@ + crate::explain::literal::address_spelling(claim.subject)
    } else {
        match claim.instance {
            None => "proven by a holder presenting the badge"@,
            Some(id) => "proven by a holder presenting instance "@ + crate::text::decimal_text(
                id as nat,
            ),
        }
    }
}

/// The proving call that would meet an unmet claim leaf, read off the
/// claim's own class: an identity is signed into, a badge is presented by
/// whoever holds it.
fn proven_by(claim: &Claim) -> (r: String)
    ensures
        r@ == proof_spelling(*claim),
{
    match claim.subject.class() {
        AddressClass::Principal => cat2(
            "proven by signing in as ",
            address_text(claim.subject).as_str(),
        ),
        _ => match claim.instance {
            None => "proven by a holder presenting the badge".to_owned(),
            Some(id) => cat2(
                "proven by a holder presenting instance ",
                decimal(id as u128).as_str(),
            ),
        },
    }
}

/// A rule evidence was judged against, each leaf beside what became of it,
/// spelled.
pub open spec fn judged_spelling(rule: Rule<Claim>, presented: Seq<Claim>, pad: Seq<char>) -> Seq<
    char,
>
    decreases rule,
{
    match rule {
        Rule::Require(claim) => if presented.contains(claim) {
            "\n"@ + pad + crate::text::right_text("met"@, 5) + "  claim "@
                + crate::explain::literal::claim_spelling(claim)
        } else {
            "\n"@ + pad + crate::text::right_text("unmet"@, 5) + "  claim "@
                + crate::explain::literal::claim_spelling(claim) + (" — "@ + proof_spelling(
                claim,
            ))
        },
        Rule::CountOf { count, rules } => "\n"@ + pad + crate::text::decimal_text(count as nat)
            + " of:"@ + crate::text::run_on(
            judged_spellings(rules@, presented, pad + "  "@),
        ),
    }
}

/// Rules evidence was judged against, each spelled.
pub open spec fn judged_spellings(
    rules: Seq<Rule<Claim>>,
    presented: Seq<Claim>,
    pad: Seq<char>,
) -> Seq<Seq<char>>
    decreases rules,
{
    Seq::new(
        rules.len(),
        |i: int|
            if 0 <= i < rules.len() {
                judged_spelling(rules[i], presented, pad)
            } else {
                Seq::empty()
            },
    )
}

/// Whether a claim is among those presented.
fn is_presented(claim: &Claim, presented: &Vec<Claim>) -> (r: bool)
    ensures
        r == presented@.contains(*claim),
{
    let mut i: usize = 0;
    while i < presented.len()
        invariant
            i <= presented.len(),
            forall|j: int| 0 <= j < i ==> presented@[j] != *claim,
        decreases presented.len() - i,
    {
        if presented[i] == *claim {
            return true;
        }
        i = i + 1;
    }
    false
}

/// The rule an unsatisfied-evidence refusal was judged against, each leaf
/// beside what became of it: met by a presented claim, or the party whose
/// proving call could have met it. What turns the bare verdict into
/// something a composer can act on.
fn judged_rule(rule: &Rule<Claim>, presented: &Vec<Claim>, pad: &str) -> (r: String)
    ensures
        r@ == judged_spelling(*rule, presented@, pad@),
    decreases rule,
{
    match rule {
        Rule::Require(claim) => {
            if is_presented(claim, presented) {
                cat5(
                    "\n",
                    pad,
                    to_the_right("met", 5).as_str(),
                    "  claim ",
                    claim_text(claim).as_str(),
                )
            } else {
                let named = cat5(
                    "\n",
                    pad,
                    to_the_right("unmet", 5).as_str(),
                    "  claim ",
                    claim_text(claim).as_str(),
                );
                let how = cat2(" — ", proven_by(claim).as_str());
                cat2(named.as_str(), how.as_str())
            }
        },
        Rule::CountOf { count, rules } => {
            let within = cat2(pad, "  ");
            let mut branches: Vec<String> = Vec::new();
            let mut i: usize = 0;
            while i < rules.len()
                invariant
                    i <= rules.len(),
                    branches.len() == i,
                    within@ == pad@ + "  "@,
                    *rule matches Rule::CountOf { rules: held, .. } && held == *rules,
                    forall|j: int|
                        0 <= j < i ==> (#[trigger] branches@[j])@ == judged_spelling(
                            rules@[j],
                            presented@,
                            within@,
                        ),
                decreases rules.len() - i,
            {
                branches.push(judged_rule(&rules[i], presented, within.as_str()));
                i = i + 1;
            }
            assert(crate::text::texts(branches@) =~= judged_spellings(
                rules@,
                presented@,
                within@,
            ));
            cat5(
                "\n",
                pad,
                decimal(*count as u128).as_str(),
                " of:",
                concat(&branches).as_str(),
            )
        },
    }
}

/// The argument a refusal points at, on a line of its own.
pub open spec fn argument_line(node: GraphNode, at: Placed) -> Seq<char> {
    match at.param {
        Some(param) => if param < node.args@.len() {
            "\n  argument "@ + crate::text::decimal_text(param as nat) + ": "@ + arg_spelling(
                node.args@[param as int],
            )
        } else {
            Seq::empty()
        },
        None => Seq::empty(),
    }
}

/// The binding a refusal points at, on a line of its own.
pub open spec fn binding_line(
    call: Option<(PackageMetadata, MethodSignature)>,
    at: Placed,
) -> Seq<char> {
    match (at.abi, call) {
        (Some(abi), Some((metadata, signature))) => match binding_spelling(
            metadata,
            signature,
            abi,
        ) {
            Some(text) => "\n  binding "@ + crate::text::decimal_text(abi as nat) + ": "@ + text,
            None => Seq::empty(),
        },
        _ => Seq::empty(),
    }
}

/// The clause a refusal points at, on a line of its own.
pub open spec fn clause_line(
    call: Option<(PackageMetadata, MethodSignature)>,
    at: Placed,
) -> Seq<char> {
    match (at.clause, call) {
        (Some(clause), Some((metadata, signature))) => match clause_listing(
            crate::explain::census::lexicon_of(metadata),
            signature.effects@,
            0,
            clause,
        ) {
            Some(text) => "\n  clause "@ + crate::text::decimal_text(clause as nat) + ": "@
                + crate::text::trimmed_text(text),
            None => Seq::empty(),
        },
        _ => Seq::empty(),
    }
}

/// The rule a refusal's evidence did not satisfy, on lines of its own.
pub open spec fn gate_lines(refusal: Refusal) -> Seq<char> {
    match refusal.unsatisfied {
        Some((rule, presented)) => "\n  its gate requires:"@ + judged_spelling(
            rule,
            presented@,
            "    "@,
        ),
        None => Seq::empty(),
    }
}

/// A refusal with the place it points to spelled out. Whatever cannot be
/// resolved is left out rather than guessed at.
pub open spec fn placed_spelling(
    intents: Seq<ManifestGraph>,
    order: Option<Seq<(usize, usize)>>,
    instances: InstanceRegistry,
    packages: MetadataCache,
    refusal: Refusal,
) -> Seq<char> {
    match node_at(intents, order, refusal.at) {
        None => refusal.sentence@,
        Some(node) => {
            let call = resolved_call(instances, packages, node);
            refusal.sentence@ + "\n  "@ + crate::explain::literal::address_spelling(
                node.target.as_address(),
            ) + " "@ + node.method@ + argument_line(node, refusal.at) + binding_line(
                call,
                refusal.at,
            ) + clause_line(call, refusal.at) + gate_lines(refusal)
        },
    }
}

/// The shared rendering: resolve where the refusal points, and append the
/// call, the argument, and the clause it names.
fn explain_placed(
    intents: &Vec<&ManifestGraph>,
    order: Option<&Order>,
    instances: &InstanceRegistry,
    packages: &MetadataCache,
    refusal: &Refusal,
) -> (r: String)
    ensures
        r@ == placed_spelling(
            intents@.unref(),
            order_view(order),
            *instances,
            *packages,
            *refusal,
        ),
{
    let node = match placed_node(intents, order, refusal.at) {
        Some(node) => node,
        None => {
            return refusal.sentence.clone();
        },
    };
    let mut out = cat5(
        refusal.sentence.as_str(),
        "\n  ",
        address_text(node.target.address()).as_str(),
        " ",
        node.method.as_str(),
    );
    let argument = match refusal.at.param {
        Some(param) if (param as usize) < node.args.len() => cat4(
            "\n  argument ",
            decimal(param as u128).as_str(),
            ": ",
            arg_text(&node.args[param as usize]).as_str(),
        ),
        _ => String::new(),
    };
    out.append(argument.as_str());
    let call = resolve_call(instances, packages, node);
    let binding = match (refusal.at.abi, call) {
        (Some(abi), Some((metadata, signature))) => match bound_abi(metadata, signature, abi) {
            Some(described) => cat4(
                "\n  binding ",
                decimal(abi as u128).as_str(),
                ": ",
                described.as_str(),
            ),
            None => String::new(),
        },
        _ => String::new(),
    };
    out.append(binding.as_str());
    let declared = match (refusal.at.clause, call) {
        (Some(clause), Some((metadata, signature))) => match declared_clause(
            metadata,
            signature,
            clause,
        ) {
            Some(listing) => cat4(
                "\n  clause ",
                decimal(clause as u128).as_str(),
                ": ",
                trimmed(listing.as_str()).as_str(),
            ),
            None => String::new(),
        },
        _ => String::new(),
    };
    out.append(declared.as_str());
    let gate = match &refusal.unsatisfied {
        Some((rule, presented)) => cat2(
            "\n  its gate requires:",
            judged_rule(rule, presented, "    ").as_str(),
        ),
        None => String::new(),
    };
    out.append(gate.as_str());
    out
}

/// A refusal at admitting a bare graph, with the place it points to
/// spelled out.
///
/// An index means nothing without the thing it indexes. `graph` is the
/// composition as written, so a node index resolves to the call the author
/// wrote and an argument index to the argument they put there. The clause
/// resolves through the callee's own declaration, which is the only place
/// a clause number is a line.
///
/// Whatever cannot be resolved is left out rather than guessed at.
pub fn explain_admission(
    graph: &ManifestGraph,
    instances: &InstanceRegistry,
    packages: &MetadataCache,
    refusal: &Refusal,
) -> (r: String)
    ensures
        r@ == placed_spelling(seq![*graph], None, *instances, *packages, *refusal),
{
    // A bare graph is one intent with no sockets, so its nodes are emitted
    // in author order and the flattened numbering is the graph's own.
    let mut intents: Vec<&ManifestGraph> = Vec::new();
    intents.push(graph);
    assert(intents@.unref() =~= seq![*graph]);
    explain_placed(&intents, None, instances, packages, refusal)
}

/// The graphs of a tree's intents, in tree order.
pub open spec fn graphs_of(intents: Seq<Intent>) -> Seq<ManifestGraph> {
    Seq::new(intents.len(), |i: int| intents[i].graph)
}

/// Whether a tree is one intent that declares no socket: nothing of it
/// comes from another.
pub open spec fn is_lone(tree: IntentTree) -> bool {
    tree.root.members@.len() == 0 && tree.root.sockets@.len() == 0
}

/// The order a tree's flattened numbering is read through. A lone intent's
/// nodes are emitted as its author wrote them, so no order is needed.
pub open spec fn flattened_order(
    tree: IntentTree,
    order: Option<Seq<(usize, usize)>>,
) -> Option<Seq<(usize, usize)>> {
    if is_lone(tree) {
        None
    } else {
        order
    }
}

/// A refusal at admitting a tree, with the place it points to spelled out
/// on [`explain_admission`]'s terms.
///
/// A flattened node index numbers the emission order, which `order` gives:
/// a member's node comes before the node that consumes what it gives,
/// whichever intent wrote it. A tree that admits no order has no flattened
/// numbering to resolve against, and its refusal says so on its own. A lone
/// intent that declares no socket is emitted in author order, whatever
/// `order` says.
pub fn explain_admission_tree(
    tree: &IntentTree,
    order: Option<&Order>,
    instances: &InstanceRegistry,
    packages: &MetadataCache,
    refusal: &Refusal,
) -> (r: String)
    ensures
        r@ == placed_spelling(
            graphs_of(tree.all_intents()),
            flattened_order(*tree, order_view(order)),
            *instances,
            *packages,
            *refusal,
        ),
{
    let order = if tree.root.members.len() == 0 && tree.root.sockets.len() == 0 {
        None
    } else {
        order
    };
    let intents = tree.intents();
    let ghost all = tree.all_intents();
    let mut graphs: Vec<&ManifestGraph> = Vec::new();
    let mut i: usize = 0;
    while i < intents.len()
        invariant
            i <= intents.len(),
            intents@.unref() == all,
            graphs.len() == i,
            forall|j: int| 0 <= j < i ==> *(#[trigger] graphs@[j]) == all[j].graph,
        decreases intents.len() - i,
    {
        assert(intents@.unref()[i as int] == *intents@[i as int]);
        graphs.push(&intents[i].graph);
        i = i + 1;
    }
    assert(graphs@.unref() =~= graphs_of(all));
    explain_placed(&graphs, order, instances, packages, refusal)
}

} // verus!
