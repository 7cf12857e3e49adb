//! What the smaller judgments promise, each read off the values it is made
//! of.
use vstd::prelude::*;

use crate::address::{Address, AddressClass, CallTarget, ResourceAddr};
use crate::admission::Admitted;
use crate::cache::PublishRefusal;
use crate::dsl::{Clause, Expr, ModeExpr, RuleLeaf, SlotRef, TargetExpr};
use crate::effect::{Effect, EffectTarget, Mode, ModeKind, Moves, Presence};
use crate::explain::names::{Lexicon, Row};
use crate::footprint::{DEPTH_UNITS, SCAN_SEEK_ENTRIES, SPAN_UNITS, TARGET_UNITS};
use crate::graph::{ClaimRef, GiveRef, GraphArg, GraphNode, ManifestGraph, ValueRef};
use crate::instance::InstanceMeta;
use crate::intent::{Intent, IntentHash, IntentRecord, IntentTree, Member};
use crate::manifest::JudgedLeaf;
use crate::metadata::{Name, PackageMetadata};
use crate::presented::Presented;
use crate::publish::SignatureError;
use crate::resource::{GrantSubject, GrantedBehaviour, ReachedCell, ResourceKind};
use crate::rule::{Judged, Leaf, Rule};
use crate::shape::ShapeNode;
use crate::signature::{AbiParam, Issuance, Issued, MethodSignature};
use crate::tree::{IntentTerms, TreeRefusal};
use crate::types::{SlotId, Value, KERNEL_SLOT_BASE, MAX_VALUE_DEPTH, PACKAGE_SLOT_BASE};
use crate::vocabulary::{
    AUTH, COMMITTED_TX_SLOT, CONFIG, CROSSING_CLAIM_SLOT, CROSSING_DECLINE_SLOT,
    CROSSING_OBLIGATION_SLOT, ESCROW_RECORD_SLOT, HALT, INSTANCE, NF_VAULT, NULLIFIER_SLOT,
    PACKAGE_SLOT, RESOURCE, VAULT,
};

verus! {

/// Two accesses share a key exactly where both read it, or both move value
/// through it in any order: a rewrite shares with nothing, and a reading
/// with nothing but a reading.
pub proof fn law_readers_share_and_movers_share(left: ModeKind, right: ModeKind)
    ensures
        crate::footprint::can_share(left, right) <==> (match (left, right) {
            (ModeKind::Read, ModeKind::Read) => true,
            (ModeKind::Read, _) => false,
            (_, ModeKind::Read) => false,
            (ModeKind::Write, _) => false,
            (_, ModeKind::Write) => false,
            _ => true,
        }),
{
}

/// An evaluated mode conflicts as what it does: a movement that only
/// brings value in is a credit, and any other a delta.
pub proof fn law_a_mode_conflicts_as_what_it_does(mode: Mode)
    ensures
        match mode {
            Mode::Read => mode.conflicts_as() == ModeKind::Read,
            Mode::Delta { moves } => mode.conflicts_as() == (if moves == Moves::In {
                ModeKind::Credit
            } else {
                ModeKind::Delta
            }),
            Mode::Reserve(_) => mode.conflicts_as() == ModeKind::Reserve,
            Mode::Write { .. } => mode.conflicts_as() == ModeKind::Write,
        },
{
}

/// An effect is priced by what it shuts out of what it spans, and by what
/// it may walk: a rewrite weighs six, a reading five and a movement three
/// for each unit of span, and a scan walks its seek and its cap.
pub proof fn law_an_effect_is_priced_by_span_and_depth(effect: Effect)
    ensures
        ({
            let weight: nat = match effect.mode {
                Mode::Write { .. } => 6,
                Mode::Read => 5,
                _ => 3,
            };
            match effect.target {
                EffectTarget::Range { lo, hi, cap, .. } => crate::footprint::cost(effect) == (
                TARGET_UNITS + SPAN_UNITS * (if hi <= lo {
                    0nat
                } else {
                    crate::footprint::binary_digits((hi - lo) as nat)
                })) * weight + DEPTH_UNITS * (SCAN_SEEK_ENTRIES + cap),
                _ => crate::footprint::cost(effect) == TARGET_UNITS * weight + DEPTH_UNITS,
            }
        }),
{
    crate::footprint::law_every_kind_weighs_what_the_lattice_says(effect.mode.conflicts_as());
}

/// How many binary digits a number has is between which powers of two it
/// lies.
pub proof fn law_digits_measure_a_number(number: nat)
    requires
        number > 0,
    ensures
        ({
            let digits = crate::footprint::binary_digits(number);
            &&& digits > 0
            &&& vstd::arithmetic::power2::pow2((digits - 1) as nat) <= number
            &&& number < vstd::arithmetic::power2::pow2(digits)
        }),
    decreases number,
{
    let digits = crate::footprint::binary_digits(number);
    vstd::arithmetic::power2::lemma2_to64();
    if number > 1 {
        law_digits_measure_a_number(number / 2);
        vstd::arithmetic::power2::lemma_pow2_unfold(digits);
        vstd::arithmetic::power2::lemma_pow2_unfold((digits - 1) as nat);
    } else {
        assert(crate::footprint::binary_digits(0) == 0);
        assert(digits == 1);
    }
}

/// An address names a resource exactly where its class is one of a
/// resource's two, and something to call exactly where it is a principal's
/// or a component's; what it names goes by that very address.
pub proof fn law_an_address_names_what_its_class_says(address: Address)
    ensures
        ResourceAddr::named_by(address) is Some <==> address.class == AddressClass::Resource
            || address.class == AddressClass::Restricted,
        CallTarget::named_by(address) is Some <==> address.class == AddressClass::Principal
            || address.class == AddressClass::Component,
        ResourceAddr::named_by(address) matches Some(resource) ==> resource.as_address()
            == address && resource.restricted == (address.class == AddressClass::Restricted),
        CallTarget::named_by(address) matches Some(target) ==> target.as_address() == address && (
        target is Principal) == (address.class == AddressClass::Principal),
{
}

/// A value makes a claim exactly where it is an address of a class a claim
/// can be about, or a resource's address beside an id; the claim is about
/// that address, and about that instance or none.
pub proof fn law_a_value_makes_the_claim_it_names(value: Value)
    ensures
        match value {
            Value::Address(address) => {
                if address.class == AddressClass::Package || address.class
                    == AddressClass::Native {
                    Presented::made_by(value) is None
                } else {
                    Presented::made_by(value) matches Some(claim) && claim.subject == address
                        && claim.instance is None
                }
            },
            Value::Tuple(parts) => {
                if parts@.len() == 2 && parts@[0] is Address && parts@[1] is U64 && (
                parts@[0]->Address_0.class == AddressClass::Resource
                    || parts@[0]->Address_0.class == AddressClass::Restricted) {
                    Presented::made_by(value) matches Some(claim) && claim.subject
                        == parts@[0]->Address_0 && claim.instance == Some(parts@[1]->U64_0)
                } else {
                    Presented::made_by(value) is None
                }
            },
            _ => Presented::made_by(value) is None,
        },
{
}

/// A freeze reaches a holder's halt flag, a recall a cell that holds
/// value, and nothing else reaches anywhere; a withdrawal and a deposit
/// ask about the party whose cell moves, and everything else about whoever
/// acts.
pub proof fn law_a_behaviour_governs_one_thing(behaviour: GrantedBehaviour)
    ensures
        behaviour.reached() == (match behaviour {
            GrantedBehaviour::Freeze => Some(ReachedCell::Halt),
            GrantedBehaviour::Recall => Some(ReachedCell::Holding),
            _ => None,
        }),
        behaviour.about_the_actor() <==> behaviour != GrantedBehaviour::Withdraw && behaviour
            != GrantedBehaviour::Deposit,
{
}

/// Minting needs a mint entry, burning a burn entry, and either both.
pub proof fn law_an_issuance_needs_the_entries_of_its_direction(
    direction: Issued,
    behaviour: GrantedBehaviour,
)
    ensures
        direction.entries().contains(behaviour) <==> (behaviour == GrantedBehaviour::Mint
            && direction != Issued::Burned) || (behaviour == GrantedBehaviour::Burn && direction
            != Issued::Minted),
{
    let entries = direction.entries();
    if direction == Issued::Minted {
        assert(entries[0] == GrantedBehaviour::Mint);
    } else if direction == Issued::Burned {
        assert(entries[0] == GrantedBehaviour::Burn);
    } else {
        assert(entries[0] == GrantedBehaviour::Mint);
        assert(entries[1] == GrantedBehaviour::Burn);
    }
}

/// Whether a rule of a grant has a leaf naming a field, itself or among
/// the rules of a badge it names.
pub open spec fn names_field(rule: crate::resource::GrantRuleExpr, field: u32) -> bool {
    exists|k: int|
        0 <= k < rule.all_leaves().len() && {
            let leaf = #[trigger] rule.all_leaves()[k];
            ||| leaf == GrantSubject::Config(field)
            ||| leaf matches GrantSubject::SelfBadge { rules, .. }
                && crate::explain::config::grants_read(rules, field)
            ||| leaf matches GrantSubject::SelfInstance { rules, .. }
                && crate::explain::config::grants_read(rules, field)
        }
}

/// A resource's grants read a configured field exactly where a leaf of one
/// of their rules names it, or names a badge whose own grants read it.
pub proof fn law_grants_read_the_fields_they_name(
    grants: crate::resource::GrantsExpr,
    field: u32,
)
    ensures
        crate::explain::config::grants_read(grants, field) <==> exists|i: int|
            0 <= i < grants.listed().len() && names_field(
                (#[trigger] grants.listed()[i]).1,
                field,
            ),
{
    let entries = grants.entries@;
    assert forall|i: int| 0 <= i < entries.len() implies crate::explain::config::rule_reads(
        (#[trigger] entries[i]).1,
        field,
    ) == names_field(entries[i].1, field) by {
        lemma_rule_reads(entries[i].1, field);
    }
    if crate::explain::config::grants_read(grants, field) {
        let i = choose|i: int|
            0 <= i < grants.entries@.len() && crate::explain::config::rule_reads(
                (#[trigger] grants.entries@[i]).1,
                field,
            );
        assert(names_field(grants.listed()[i].1, field));
    }
    if exists|i: int|
        0 <= i < grants.listed().len() && names_field((#[trigger] grants.listed()[i]).1, field) {
        let i = choose|i: int|
            0 <= i < grants.listed().len() && names_field(
                (#[trigger] grants.listed()[i]).1,
                field,
            );
        assert(crate::explain::config::rule_reads(grants.entries@[i].1, field));
    }
}

/// A rule reads a field exactly where a leaf of it does.
proof fn lemma_rule_reads(rule: crate::resource::GrantRuleExpr, field: u32)
    ensures
        crate::explain::config::rule_reads(rule, field) == names_field(rule, field),
    decreases rule,
{
    match rule {
        Rule::Require(subject) => {
            assert(rule.all_leaves() =~= seq![subject]);
            assert(rule.all_leaves()[0] == subject);
            assert(crate::explain::config::rule_reads(rule, field)
                == crate::explain::config::subject_reads(subject, field));
            let named = {
                ||| subject == GrantSubject::Config(field)
                ||| subject matches GrantSubject::SelfBadge { rules, .. }
                    && crate::explain::config::grants_read(rules, field)
                ||| subject matches GrantSubject::SelfInstance { rules, .. }
                    && crate::explain::config::grants_read(rules, field)
            };
            assert(crate::explain::config::subject_reads(subject, field) == named);
        },
        Rule::CountOf { count, rules } => {
            lemma_rules_read(rules@, field);
            let leaves = rule.all_leaves();
            assert(leaves == Rule::leaves_of(rules@));
            assert(names_field(rule, field) == leaves_name(leaves, field)) by {
                if leaves_name(leaves, field) {
                    let k = choose|k: int|
                        0 <= k < leaves.len() && crate::explain::config::subject_reads(
                            #[trigger] leaves[k],
                            field,
                        );
                    assert(rule.all_leaves()[k] == leaves[k]);
                }
                if names_field(rule, field) {
                    let k = choose|k: int|
                        0 <= k < rule.all_leaves().len() && {
                            let leaf = #[trigger] rule.all_leaves()[k];
                            ||| leaf == GrantSubject::Config(field)
                            ||| leaf matches GrantSubject::SelfBadge { rules, .. }
                                && crate::explain::config::grants_read(rules, field)
                            ||| leaf matches GrantSubject::SelfInstance { rules, .. }
                                && crate::explain::config::grants_read(rules, field)
                        };
                    assert(crate::explain::config::subject_reads(leaves[k], field));
                }
            }
        },
    }
}

/// Whether a leaf of a run reads a field.
spec fn leaves_name(leaves: Seq<GrantSubject>, field: u32) -> bool {
    exists|k: int|
        0 <= k < leaves.len() && crate::explain::config::subject_reads(#[trigger] leaves[k], field)
}

/// Rules read a field exactly where a leaf of one of them does.
#[verifier::rlimit(60)]
proof fn lemma_rules_read(rules: Seq<crate::resource::GrantRuleExpr>, field: u32)
    ensures
        leaves_name(Rule::leaves_of(rules), field) == (exists|i: int|
            0 <= i < rules.len() && crate::explain::config::rule_reads(
                #[trigger] rules[i],
                field,
            )),
    decreases rules,
{
    if rules.len() > 0 {
        let before = rules.drop_last();
        let last = rules.last();
        assert(decreases_to!(rules => before));
        assert(decreases_to!(rules => rules[rules.len() - 1]));
        lemma_rules_read(before, field);
        lemma_rule_reads(last, field);
        let head = Rule::leaves_of(before);
        let tail = last.all_leaves();
        let all = Rule::leaves_of(rules);
        assert(all =~= head + tail);
        if leaves_name(all, field) {
            let k = choose|k: int|
                0 <= k < all.len() && crate::explain::config::subject_reads(
                    #[trigger] all[k],
                    field,
                );
            if k < head.len() {
                assert(head[k] == all[k]);
                assert(leaves_name(head, field));
                let i = choose|i: int|
                    0 <= i < before.len() && crate::explain::config::rule_reads(
                        #[trigger] before[i],
                        field,
                    );
                assert(rules[i] == before[i]);
            } else {
                assert(last.all_leaves()[k - head.len()] == all[k]);
                assert(names_field(last, field));
                assert(rules[rules.len() - 1] == last);
            }
        }
        if exists|i: int|
            0 <= i < rules.len() && crate::explain::config::rule_reads(
                #[trigger] rules[i],
                field,
            ) {
            let i = choose|i: int|
                0 <= i < rules.len() && crate::explain::config::rule_reads(
                    #[trigger] rules[i],
                    field,
                );
            if i < before.len() {
                assert(before[i] == rules[i]);
                assert(leaves_name(head, field));
                let k = choose|k: int|
                    0 <= k < head.len() && crate::explain::config::subject_reads(
                        #[trigger] head[k],
                        field,
                    );
                assert(all[k] == head[k]);
            } else {
                assert(names_field(last, field));
                let k = choose|k: int|
                    0 <= k < last.all_leaves().len() && {
                        let leaf = #[trigger] last.all_leaves()[k];
                        ||| leaf == GrantSubject::Config(field)
                        ||| leaf matches GrantSubject::SelfBadge { rules, .. }
                            && crate::explain::config::grants_read(rules, field)
                        ||| leaf matches GrantSubject::SelfInstance { rules, .. }
                            && crate::explain::config::grants_read(rules, field)
                    };
                assert(crate::explain::config::subject_reads(tail[k], field));
                assert(all[head.len() + k] == tail[k]);
            }
        }
    }
}

/// A package let in has every one of its methods inside its bounds, its
/// declaration accepted and its binding accepted, and its tables accepted;
/// one kept out is kept out for the method it names, or for its tables.
pub proof fn law_a_package_is_let_in_by_every_judgment(
    metadata: PackageMetadata,
    reserved: Seq<ShapeNode>,
)
    ensures
        ({
            let methods = metadata.methods.listed();
            let verdict = crate::cache::door_verdict(metadata, reserved);
            &&& verdict is Ok <==> {
                &&& forall|i: int|
                    0 <= i < methods.len() ==> crate::publish::bounds::bounds_verdict(
                        (#[trigger] methods[i]).1,
                    ) is Ok && crate::publish::declaration::declarations_verdict(methods[i].1)
                        is Ok && crate::publish::abi::abi_verdict(methods[i].1) is Ok
                &&& crate::publish::package::package_verdict(metadata, reserved) is Ok
            }
            &&& verdict matches Err(PublishRefusal::Package(refusal))
                ==> crate::publish::package::package_verdict(metadata, reserved) == Err::<
                (),
                crate::publish::package::MetadataError,
            >(refusal)
            &&& verdict matches Err(PublishRefusal::Method { method, source }) ==> exists|i: int|
                0 <= i < methods.len() && (#[trigger] methods[i]).0 == method
                    && crate::publish::signature_verdict(methods[i].1) == Err::<
                    (),
                    SignatureError,
                >(source)
        }),
{
    let methods = metadata.methods.listed();
    let verdicts = crate::cache::door_verdicts(methods);
    crate::verdict::lemma_accepted(verdicts);
    assert forall|i: int| 0 <= i < methods.len() implies (#[trigger] verdicts[i] is Ok) == (
    crate::publish::bounds::bounds_verdict(methods[i].1) is Ok
        && crate::publish::declaration::declarations_verdict(methods[i].1) is Ok
        && crate::publish::abi::abi_verdict(methods[i].1) is Ok) by {}
    if crate::verdict::first_refusal(verdicts) is Err {
        let i = crate::publish::faults::lemma_refused_somewhere(verdicts);
        assert(methods[i].0 == methods[i].0);
        assert(verdicts[i] is Err);
    } else {
        assert forall|i: int|
            0 <= i < methods.len() implies crate::publish::bounds::bounds_verdict(
            (#[trigger] methods[i]).1,
        ) is Ok && crate::publish::declaration::declarations_verdict(methods[i].1) is Ok
            && crate::publish::abi::abi_verdict(methods[i].1) is Ok by {
            assert(verdicts[i] is Ok);
        }
    }
}

/// Whether a clause rewrites the component's own configuration leaf, under
/// its own authority.
pub open spec fn rewrites_config(clause: Clause) -> bool {
    &&& clause matches Clause::Effect { target, mode, reach: None, .. }
    &&& mode is Write
    &&& target matches TargetExpr::Point(key)
    &&& key matches Expr::ChildKey { owner, slot, material }
    &&& *owner is SelfAddr
    &&& slot == SlotRef::Fixed(SlotId(CONFIG))
    &&& material@.len() == 0
}

/// A package's seal is the first of its methods to rewrite the component's
/// own configuration leaf, and it has none exactly where no method does.
pub proof fn law_a_seal_is_the_first_to_write_the_configuration(
    methods: Seq<(Name, MethodSignature)>,
)
    ensures
        match crate::metadata::first_seal(methods) {
            Some(at) => {
                &&& 0 <= at < methods.len()
                &&& seals(methods[at].1)
                &&& forall|i: int| 0 <= i < at ==> !seals((#[trigger] methods[i]).1)
            },
            None => forall|i: int|
                0 <= i < methods.len() ==> !seals((#[trigger] methods[i]).1),
        },
    decreases methods.len(),
{
    if methods.len() > 0 {
        let before = methods.drop_last();
        law_a_seal_is_the_first_to_write_the_configuration(before);
        assert forall|i: int| 0 <= i < before.len() implies before[i] == methods[i] by {}
        lemma_seals(methods.last().1);
        match crate::metadata::first_seal(before) {
            Some(at) => {
                assert(before[at] == methods[at]);
                assert forall|i: int| 0 <= i < at implies !seals((#[trigger] methods[i]).1) by {
                    assert(before[i] == methods[i]);
                }
            },
            None => {
                assert forall|i: int| 0 <= i < before.len() implies !seals(
                    (#[trigger] methods[i]).1,
                ) by {
                    assert(before[i] == methods[i]);
                }
            },
        }
    }
}

/// Whether a method rewrites the component's own configuration leaf.
pub open spec fn seals(signature: MethodSignature) -> bool {
    exists|k: int|
        0 <= k < Clause::preorder(signature.effects@).len() && rewrites_config(
            #[trigger] Clause::preorder(signature.effects@)[k],
        )
}

/// A method is a seal exactly where it rewrites the configuration leaf.
proof fn lemma_seals(signature: MethodSignature)
    ensures
        crate::publish::declaration::is_seal(signature) == seals(signature),
{
    let flat = Clause::preorder(signature.effects@);
    assert forall|k: int| 0 <= k < flat.len() implies crate::publish::declaration::writes_config(
        #[trigger] flat[k],
    ) == rewrites_config(flat[k]) by {}
    if crate::publish::declaration::is_seal(signature) {
        let k = choose|k: int|
            0 <= k < Clause::preorder(signature.effects@).len()
                && crate::publish::declaration::writes_config(
                #[trigger] Clause::preorder(signature.effects@)[k],
            );
        assert(rewrites_config(Clause::preorder(signature.effects@)[k]));
    }
    if seals(signature) {
        let k = choose|k: int|
            0 <= k < Clause::preorder(signature.effects@).len() && rewrites_config(
                #[trigger] Clause::preorder(signature.effects@)[k],
            );
        assert(crate::publish::declaration::writes_config(
            Clause::preorder(signature.effects@)[k],
        ));
    }
}

/// An event is read against the first shape of its own name, and read at
/// all exactly where its index names an event and some shape bears that
/// name.
pub proof fn law_an_event_is_read_by_its_own_shape(metadata: PackageMetadata, event: u32)
    ensures
        match crate::metadata::event_reading(metadata, event) {
            Some((name, place)) => {
                &&& event < metadata.events@.len()
                &&& name == metadata.events@[event as int]@
                &&& crate::publish::coherence::first_bears(metadata.types.held(), place, name)
            },
            None => event >= metadata.events@.len() || crate::publish::coherence::none_bears(
                metadata.types.held(),
                metadata.events@[event as int]@,
            ),
        },
{
    if event < metadata.events@.len() {
        crate::publish::coherence::lemma_first_called(
            metadata.types.held(),
            metadata.events@[event as int]@,
        );
    }
}

/// Whether a literal anywhere in a graph nests past what a value may.
pub open spec fn carries_deep_literal(graph: ManifestGraph) -> bool {
    exists|i: int, k: int|
        0 <= i < graph.nodes@.len() && 0 <= k < graph.nodes@[i].args@.len() && (
        #[trigger] graph.nodes@[i].args@[k] matches GraphArg::Literal(value) && value.depth()
            > MAX_VALUE_DEPTH)
}

/// Whether a value of a record's configuration nests past what a value
/// may.
pub open spec fn carries_deep_field(meta: InstanceMeta) -> bool {
    exists|k: int|
        0 <= k < meta.config@.len() && (#[trigger] meta.config@[k]).depth() > MAX_VALUE_DEPTH
}

/// A tree is refused for its values exactly where its order stands and a
/// literal of one of its intents' graphs, or a field of one of the records
/// it presents, nests too deep; for its shape exactly where the order was
/// refused, and for that reason; and otherwise its shape is accepted.
pub proof fn law_a_tree_is_refused_for_what_nests_too_deep<E>(
    tree: IntentTree,
    flattened: Result<(), E>,
)
    ensures
        ({
            let deep = (exists|i: int|
                0 <= i < tree.all_intents().len() && carries_deep_literal(
                    (#[trigger] tree.all_intents()[i]).graph,
                )) || (exists|i: int|
                0 <= i < tree.instances@.len() && carries_deep_field(
                    #[trigger] tree.instances@[i],
                ));
            match flattened {
                Err(refusal) => tree.shape_verdict(flattened) == Err::<(), TreeRefusal<E>>(
                    TreeRefusal::Shape(refusal),
                ),
                Ok(_) => if deep {
                    tree.shape_verdict(flattened) == Err::<(), TreeRefusal<E>>(
                        TreeRefusal::ValueTooDeep,
                    )
                } else {
                    tree.shape_verdict(flattened) is Ok
                },
            }
        }),
{
    let intents = tree.all_intents();
    assert forall|i: int| 0 <= i < intents.len() implies crate::tree::is_deep_graph(
        (#[trigger] tree.all_intents()[i]).graph,
    ) == carries_deep_literal(tree.all_intents()[i].graph) by {
        lemma_deep_graph(tree.all_intents()[i].graph);
    }
    assert forall|i: int| 0 <= i < tree.instances@.len() implies crate::tree::is_deep_record(
        #[trigger] tree.instances@[i],
    ) == carries_deep_field(tree.instances@[i]) by {}
}

/// A graph is deep exactly where it carries a deep literal.
proof fn lemma_deep_graph(graph: ManifestGraph)
    ensures
        crate::tree::is_deep_graph(graph) == carries_deep_literal(graph),
{
    if crate::tree::is_deep_graph(graph) {
        let i = choose|i: int|
            0 <= i < graph.nodes@.len() && crate::tree::is_deep_node(#[trigger] graph.nodes@[i]);
        let node = graph.nodes@[i];
        let k = choose|k: int|
            0 <= k < node.args@.len() && crate::tree::is_deep_argument(#[trigger] node.args@[k]);
        assert(graph.nodes@[i].args@[k] is Literal);
    }
    if carries_deep_literal(graph) {
        let (i, k) = choose|i: int, k: int|
            0 <= i < graph.nodes@.len() && 0 <= k < graph.nodes@[i].args@.len() && (
            #[trigger] graph.nodes@[i].args@[k] matches GraphArg::Literal(value) && value.depth()
                > MAX_VALUE_DEPTH);
        assert(crate::tree::is_deep_argument(graph.nodes@[i].args@[k]));
        assert(crate::tree::is_deep_node(graph.nodes@[i]));
    }
}

/// A repeat is found exactly where two identities are one, and it is the
/// first place at which an earlier one stands again.
pub proof fn law_the_first_repeat_is_found(identities: Seq<IntentHash>)
    ensures
        match crate::tree::first_repeat(identities) {
            Some(at) => {
                &&& 0 <= at < identities.len()
                &&& exists|earlier: int|
                    0 <= earlier < at && #[trigger] identities[earlier] == identities[at]
                &&& forall|i: int, j: int|
                    0 <= i < j < at ==> #[trigger] identities[i] != #[trigger] identities[j]
            },
            None => forall|i: int, j: int|
                0 <= i < j < identities.len() ==> #[trigger] identities[i]
                    != #[trigger] identities[j],
        },
    decreases identities.len(),
{
    if identities.len() > 0 {
        let before = identities.drop_last();
        law_the_first_repeat_is_found(before);
        assert forall|i: int| 0 <= i < before.len() implies before[i] == identities[i] by {}
        match crate::tree::first_repeat(before) {
            Some(at) => {
                let earlier = choose|earlier: int|
                    0 <= earlier < at && #[trigger] before[earlier] == before[at];
                assert(identities[earlier] == identities[at]);
                assert forall|i: int, j: int| 0 <= i < j < at implies #[trigger] identities[i]
                    != #[trigger] identities[j] by {
                    assert(before[i] != before[j]);
                }
            },
            None => {
                let last = identities.len() - 1;
                if before.contains(identities.last()) {
                    let k = choose|k: int| 0 <= k < before.len() && before[k] == identities.last();
                    assert(identities[k] == identities[last]);
                }
                assert forall|i: int, j: int| 0 <= i < j < last implies #[trigger] identities[i]
                    != #[trigger] identities[j] by {
                    assert(before[i] != before[j]);
                }
                if !before.contains(identities.last()) {
                    assert forall|i: int, j: int|
                        0 <= i < j < identities.len() implies #[trigger] identities[i]
                        != #[trigger] identities[j] by {
                        if j == last {
                            assert(before[i] == identities[i]);
                        }
                    }
                }
            },
        }
    }
}

/// A record of an intent is of that intent and its expiry, and holds one
/// nullifier for each account the intent acts as, in order, under that
/// account's own key.
pub proof fn law_a_record_holds_a_nullifier_for_each_account(
    record: IntentRecord,
    intent: Intent,
    identity: IntentHash,
    terms: IntentTerms,
)
    requires
        crate::tree::is_record_of(record, intent, identity, terms),
    ensures
        record.intent == identity,
        record.expiry_ms == terms.expiry_ms,
        record.nullifiers@.len() == intent.accounts@.len(),
        forall|i: int|
            0 <= i < intent.accounts@.len() ==> (#[trigger] record.nullifiers@[i]).account
                == intent.accounts@[i] && record.nullifiers@[i].key == terms.keys@[i],
{
}

/// What admission adds for the intents of a tree is one exclusive creation
/// for each account of each, of that account's own key, and nothing else.
pub proof fn law_admission_adds_a_creation_for_each_account(
    intents: Seq<Intent>,
    terms: Seq<IntentTerms>,
    effect: Effect,
)
    requires
        crate::tree::are_terms_of(intents, terms),
    ensures
        crate::runs::spliced(crate::tree::nullifier_effects(intents, terms)).contains(effect)
            <==> exists|i: int, k: int|
            0 <= i < intents.len() && 0 <= k < intents[i].accounts@.len() && effect == (Effect {
                target: EffectTarget::Point(#[trigger] terms[i].keys@[k]),
                mode: Mode::Write { moves: Moves::Both },
            }),
{
    let folded = crate::tree::nullifier_effects(intents, terms);
    lemma_spliced_from(folded, effect);
    let all = crate::runs::spliced(folded);
    if all.contains(effect) {
        let i = choose|i: int| 0 <= i < folded.len() && (#[trigger] folded[i]).contains(effect);
        let k = choose|k: int| 0 <= k < folded[i].len() && folded[i][k] == effect;
        assert(effect.target == EffectTarget::Point(terms[i].keys@[k]));
    }
    if exists|i: int, k: int|
        0 <= i < intents.len() && 0 <= k < intents[i].accounts@.len() && effect == (Effect {
            target: EffectTarget::Point(#[trigger] terms[i].keys@[k]),
            mode: Mode::Write { moves: Moves::Both },
        }) {
        let (i, k) = choose|i: int, k: int|
            0 <= i < intents.len() && 0 <= k < intents[i].accounts@.len() && effect == (Effect {
                target: EffectTarget::Point(#[trigger] terms[i].keys@[k]),
                mode: Mode::Write { moves: Moves::Both },
            });
        assert(folded[i][k] == effect);
        assert(folded[i].contains(effect));
    }
}

/// Runs spliced hold exactly what one of them does.
proof fn lemma_spliced_from<T>(parts: Seq<Seq<T>>, held: T)
    ensures
        crate::runs::spliced(parts).contains(held) <==> exists|i: int|
            0 <= i < parts.len() && (#[trigger] parts[i]).contains(held),
    decreases parts.len(),
{
    if parts.len() > 0 {
        let before = parts.drop_last();
        lemma_spliced_from(before, held);
        let head = crate::runs::spliced(before);
        let tail = parts.last();
        let all = crate::runs::spliced(parts);
        if all.contains(held) {
            let k = choose|k: int| 0 <= k < all.len() && all[k] == held;
            if k < head.len() {
                assert(head[k] == held);
                assert(head.contains(held));
                let i = choose|i: int|
                    0 <= i < before.len() && (#[trigger] before[i]).contains(held);
                assert(parts[i] == before[i]);
            } else {
                assert(tail[k - head.len()] == held);
                assert(parts[parts.len() - 1].contains(held));
            }
        }
        if exists|i: int| 0 <= i < parts.len() && (#[trigger] parts[i]).contains(held) {
            let i = choose|i: int| 0 <= i < parts.len() && (#[trigger] parts[i]).contains(held);
            if i < before.len() {
                assert(before[i] == parts[i]);
                assert(head.contains(held));
                let k = choose|k: int| 0 <= k < head.len() && head[k] == held;
                assert(all[k] == held);
            } else {
                let k = choose|k: int| 0 <= k < tail.len() && tail[k] == held;
                assert(all[head.len() + k] == held);
            }
        }
    }
}

/// A tree is admitted exactly where its order stands, nothing in it nests
/// too deep, no two of its intents are one, its targets resolve and its
/// manifest is admitted; what is refused first, in that order, is what it
/// is refused for.
pub proof fn law_a_tree_is_admitted_in_order<E>(
    tree: IntentTree,
    flattened: Result<(), E>,
    identities: Seq<IntentHash>,
    resolved: Result<(), E>,
    admitted: Result<Admitted, E>,
)
    requires
        identities.len() <= u32::MAX,
    ensures
        ({
            let verdict = crate::tree::tree_verdict(
                tree,
                flattened,
                identities,
                resolved,
                admitted,
            );
            &&& verdict is Ok <==> flattened is Ok && tree.shape_verdict(flattened) is Ok
                && identities.no_duplicates() && resolved is Ok && admitted is Ok
            &&& flattened matches Err(refusal) ==> verdict == Err::<(), TreeRefusal<E>>(
                TreeRefusal::Shape(refusal),
            )
            &&& verdict matches Err(TreeRefusal::DuplicateIntent { index }) ==> index
                < identities.len() && identities.take(index as int).contains(
                identities[index as int],
            )
            &&& tree.shape_verdict(flattened) is Ok && identities.no_duplicates() ==> {
                &&& resolved matches Err(refusal) ==> verdict == Err::<(), TreeRefusal<E>>(
                    TreeRefusal::Unresolved(refusal),
                )
                &&& resolved is Ok ==> (admitted matches Err(refusal) ==> verdict == Err::<
                    (),
                    TreeRefusal<E>,
                >(TreeRefusal::Refused(refusal)))
            }
        }),
{
    crate::tree::law_a_tree_holds_each_intent_once(identities);
    match crate::tree::first_repeat(identities) {
        Some(at) => {
            let earlier = choose|earlier: int|
                0 <= earlier < at && identities[earlier] == identities[at];
            assert(identities.take(at)[earlier] == identities[at]);
        },
        None => {},
    }
}

/// A node consumes a socket exactly where an argument of it is that
/// socket's, or its evidence names the socket; and a give exactly where an
/// argument of it is that give's.
#[verifier::rlimit(60)]
pub proof fn law_a_node_consumes_what_its_arguments_name(
    node: GraphNode,
    socket: u32,
    give: GiveRef,
)
    ensures
        node.all_sockets().contains(socket) <==> (exists|i: int|
            0 <= i < node.args@.len() && (#[trigger] node.args@[i] matches GraphArg::Value {
                source,
                ..
            } && source == ValueRef::Socket(socket))) || (exists|i: int|
            0 <= i < node.evidence.listed().len() && (#[trigger] node.evidence.listed()[i]).0
                == ClaimRef::Socket(socket)),
        node.all_gives().contains(give) <==> exists|i: int|
            0 <= i < node.args@.len() && (#[trigger] node.args@[i] matches GraphArg::Value {
                source,
                ..
            } && source == ValueRef::Give(give)),
{
    let sockets = crate::graph::argument_sockets(node.args@);
    let proven = crate::graph::evidence_sockets(node.evidence.listed());
    let gives = crate::graph::argument_gives(node.args@);
    lemma_spliced_from(sockets, socket);
    lemma_spliced_from(proven, socket);
    lemma_spliced_from(gives, give);
    let one = crate::runs::spliced(sockets);
    let two = crate::runs::spliced(proven);
    assert(node.all_sockets() == one + two);
    assert((one + two).contains(socket) == (one.contains(socket) || two.contains(socket))) by {
        if one.contains(socket) {
            let k = choose|k: int| 0 <= k < one.len() && one[k] == socket;
            assert((one + two)[k] == socket);
        }
        if two.contains(socket) {
            let k = choose|k: int| 0 <= k < two.len() && two[k] == socket;
            assert((one + two)[one.len() + k] == socket);
        }
        if (one + two).contains(socket) {
            let k = choose|k: int| 0 <= k < (one + two).len() && (one + two)[k] == socket;
            if k < one.len() {
                assert(one[k] == socket);
            } else {
                assert(two[k - one.len()] == socket);
            }
        }
    }
    assert forall|i: int| 0 <= i < node.args@.len() implies (#[trigger] sockets[i]).contains(
        socket,
    ) == (node.args@[i] matches GraphArg::Value { source, .. } && source == ValueRef::Socket(
        socket,
    )) by {
        let named = node.args@[i].names_socket();
        if named is Some {
            assert(sockets[i][0] == named->Some_0);
        }
    }
    assert forall|i: int| 0 <= i < node.evidence.listed().len() implies (
    #[trigger] proven[i]).contains(socket) == (node.evidence.listed()[i].0 == ClaimRef::Socket(
        socket,
    )) by {
        let named = node.evidence.listed()[i].0.names_socket();
        if named is Some {
            assert(proven[i][0] == named->Some_0);
        }
    }
    assert forall|i: int| 0 <= i < node.args@.len() implies (#[trigger] gives[i]).contains(give)
        == (node.args@[i] matches GraphArg::Value { source, .. } && source == ValueRef::Give(
        give,
    )) by {
        let named = node.args@[i].names_give();
        if named is Some {
            assert(gives[i][0] == named->Some_0);
        }
    }
    if exists|i: int|
        0 <= i < node.args@.len() && (#[trigger] node.args@[i] matches GraphArg::Value {
            source,
            ..
        } && source == ValueRef::Socket(socket)) {
        let i = choose|i: int|
            0 <= i < node.args@.len() && (#[trigger] node.args@[i] matches GraphArg::Value {
                source,
                ..
            } && source == ValueRef::Socket(socket));
        assert(sockets[i].contains(socket));
    }
    if exists|i: int|
        0 <= i < node.evidence.listed().len() && (#[trigger] node.evidence.listed()[i]).0
            == ClaimRef::Socket(socket) {
        let i = choose|i: int|
            0 <= i < node.evidence.listed().len() && (#[trigger] node.evidence.listed()[i]).0
                == ClaimRef::Socket(socket);
        assert(proven[i].contains(socket));
    }
    if exists|i: int|
        0 <= i < node.args@.len() && (#[trigger] node.args@[i] matches GraphArg::Value {
            source,
            ..
        } && source == ValueRef::Give(give)) {
        let i = choose|i: int|
            0 <= i < node.args@.len() && (#[trigger] node.args@[i] matches GraphArg::Value {
                source,
                ..
            } && source == ValueRef::Give(give));
        assert(gives[i].contains(give));
    }
    if one.contains(socket) {
        let i = choose|i: int| 0 <= i < sockets.len() && (#[trigger] sockets[i]).contains(socket);
        assert(node.args@[i] is Value);
    }
    if two.contains(socket) {
        let i = choose|i: int| 0 <= i < proven.len() && (#[trigger] proven[i]).contains(socket);
        assert(node.evidence.listed()[i].0 == ClaimRef::Socket(socket));
    }
    if node.all_gives().contains(give) {
        let i = choose|i: int| 0 <= i < gives.len() && (#[trigger] gives[i]).contains(give);
        assert(node.args@[i] is Value);
    }
}

/// A value that holds nothing is one deep, and one that holds others is
/// one deeper than the deepest of them.
pub proof fn law_a_value_is_one_deeper_than_what_it_holds(parts: Vec<Value>, i: int)
    ensures
        0 <= i < parts@.len() ==> parts@[i].depth() < Value::Tuple(parts).depth()
            && parts@[i].depth() < Value::List(parts).depth(),
        parts@.len() == 0 ==> Value::Tuple(parts).depth() == 1 && Value::List(parts).depth() == 1,
        parts@.len() > 0 ==> exists|k: int|
            0 <= k < parts@.len() && (#[trigger] parts@[k]).depth() + 1 == Value::Tuple(
                parts,
            ).depth(),
        Value::Tuple(parts).depth() == Value::List(parts).depth(),
{
    lemma_deepest(parts@);
}

/// The deepest of a run is as deep as one of them, and no other is deeper.
proof fn lemma_deepest(values: Seq<Value>)
    ensures
        forall|i: int|
            0 <= i < values.len() ==> (#[trigger] values[i]).depth() <= Value::deepest(values),
        values.len() > 0 ==> exists|k: int|
            0 <= k < values.len() && (#[trigger] values[k]).depth() == Value::deepest(values),
        values.len() == 0 ==> Value::deepest(values) == 0,
    decreases values.len(),
{
    if values.len() > 0 {
        let before = values.drop_last();
        lemma_deepest(before);
        let last = values.len() - 1;
        assert(values[last] == values.last());
        assert forall|i: int| 0 <= i < values.len() implies (#[trigger] values[i]).depth()
            <= Value::deepest(values) by {
            if i < last {
                assert(before[i] == values[i]);
            }
        }
        if values.last().depth() > Value::deepest(before) {
            assert(values[last].depth() == Value::deepest(values));
        } else if before.len() > 0 {
            let k = choose|k: int|
                0 <= k < before.len() && (#[trigger] before[k]).depth() == Value::deepest(before);
            assert(values[k] == before[k]);
        } else {
            assert(values[last].depth() == Value::deepest(values));
        }
    }
}

/// A value is no wider than it may be exactly where its bytes are no more
/// than a value may hold, its parts no more, and each of them no wider.
pub proof fn law_a_value_is_as_wide_as_its_parts(value: Value)
    ensures
        value.within_width() <==> (match value {
            Value::Bytes(raw) => raw@.len() <= crate::types::MAX_VALUE_BYTES,
            Value::Tuple(parts) => parts@.len() <= crate::types::MAX_VALUE_ITEMS && forall|i: int|
                0 <= i < parts@.len() ==> (#[trigger] parts@[i]).within_width(),
            Value::List(parts) => parts@.len() <= crate::types::MAX_VALUE_ITEMS && forall|i: int|
                0 <= i < parts@.len() ==> (#[trigger] parts@[i]).within_width(),
            _ => true,
        }),
{
}

/// What a component's seal declares: a condition that its own
/// configuration leaf is not there, and a rewrite of that very leaf, both
/// under no judgment, neither of them of value nor of another's prefix.
pub proof fn law_a_seal_declares_its_own_absence(clauses: Seq<Clause>)
    requires
        crate::publish::declaration::are_seal_clauses(clauses),
    ensures
        clauses.len() == 2,
        clauses[0] matches Clause::Requires {
            guard: None,
            rule: Rule::Require(RuleLeaf::Presence { target, expect: Presence::Absent }),
        } && (clauses[1] matches Clause::Effect {
            guard: None,
            target: leaf,
            mode: ModeExpr::Write { moves: Moves::Both },
            denomination: None,
            reach: None,
        } && target.term() == leaf.term() && (leaf matches TargetExpr::Point(Expr::ChildKey {
            owner,
            slot,
            material,
        }) && *owner is SelfAddr && slot == SlotRef::Fixed(SlotId(CONFIG)) && material@.len()
            == 0)),
{
}

/// An issuance founds its resource exactly where the method writes the
/// record of the resource its own mark names.
pub proof fn law_an_issuance_founds_where_its_record_is_written(
    issuance: Issuance,
    flat: Seq<Clause>,
)
    ensures
        crate::publish::declaration::is_founding(issuance, flat) <==> exists|j: int|
            0 <= j < flat.len() && crate::publish::faults::writes_record_of(
                #[trigger] flat[j],
                issuance,
            ),
{
    assert forall|j: int| 0 <= j < flat.len() implies crate::publish::declaration::founds(
        issuance,
        #[trigger] flat[j],
    ) == crate::publish::faults::writes_record_of(flat[j], issuance) by {}
}

/// The resources table lists every resource a method issues, by its kind,
/// its mark and what it grants.
pub proof fn law_every_issuance_is_tabled(metadata: PackageMetadata, method: int, i: int)
    requires
        0 <= method < metadata.methods.listed().len(),
        0 <= i < metadata.methods.listed()[method].1.issues@.len(),
    ensures
        ({
            let bare = Lexicon { metadata, census: Seq::empty() };
            let issued = metadata.methods.listed()[method].1.issues@[i];
            crate::explain::census::lexicon_of(metadata).census.contains(
                Row {
                    kind: if issued.kind == ResourceKind::NonFungible {
                        "non-fungible"@
                    } else {
                        "fungible"@
                    },
                    material: "["@ + crate::explain::literal::bytes_spelling(issued.mark@) + "]"@,
                    granting: bare.granting(issued.grants),
                },
            )
        }),
{
    let bare = Lexicon { metadata, census: Seq::empty() };
    let methods = metadata.methods.listed();
    let signature = methods[method].1;
    let row = bare.issuance_row(signature.issues@[i]);
    let rows = bare.signature_rows(signature);
    assert(rows[i] == row);
    assert(rows.contains(row));
    let parts = Seq::new(methods.len(), |k: int| bare.signature_rows(methods[k].1));
    assert(parts[method] == rows);
    assert(parts[method].contains(row));
    lemma_spliced_from(parts, row);
    assert(crate::explain::census::occurrences(metadata) == crate::runs::spliced(parts));
    assert(crate::explain::census::occurrences(metadata).contains(row));
    crate::explain::census::law_a_resource_is_spelled_once(metadata);
}

/// The width of a leaf the protocol fixes: an amount's, an id's none, a
/// flag's one byte, a record's two, a stored authority's, a marker's, an
/// answer's, an obligation's and a crossing's; and the cap anywhere else.
pub proof fn law_protocol_leaves_are_as_wide_as_what_they_hold(slot: u16)
    ensures
        slot == VAULT ==> crate::metadata::protocol_cell_width(slot) == 16,
        slot == NF_VAULT ==> crate::metadata::protocol_cell_width(slot) == 0,
        slot == HALT ==> crate::metadata::protocol_cell_width(slot) == 1,
        slot == RESOURCE ==> crate::metadata::protocol_cell_width(slot) == 2,
        slot == AUTH ==> crate::metadata::protocol_cell_width(slot)
            == crate::metadata::AUTHORITY_WIDTH,
        slot == NULLIFIER_SLOT || slot == COMMITTED_TX_SLOT
            ==> crate::metadata::protocol_cell_width(slot) == 8,
        slot == CROSSING_CLAIM_SLOT || slot == CROSSING_DECLINE_SLOT
            ==> crate::metadata::protocol_cell_width(slot)
            == crate::metadata::CROSSING_WIDTH + 8,
        slot == CROSSING_OBLIGATION_SLOT ==> crate::metadata::protocol_cell_width(slot)
            == crate::metadata::CROSSING_OBLIGATION_WIDTH,
        slot == ESCROW_RECORD_SLOT ==> crate::metadata::protocol_cell_width(slot)
            == crate::metadata::CROSSING_WIDTH,
        slot == CONFIG || slot == INSTANCE || slot == PACKAGE_SLOT || (PACKAGE_SLOT_BASE <= slot
            < KERNEL_SLOT_BASE) ==> crate::metadata::protocol_cell_width(slot)
            == crate::metadata::MAX_SLOT_WIDTH,
{
}

/// A price and a place are what they count, as far as a machine counts.
pub proof fn law_counts_stop_at_what_a_machine_holds(count: nat)
    ensures
        count <= u64::MAX ==> crate::footprint::priced(count) == count,
        count > u64::MAX ==> crate::footprint::priced(count) == u64::MAX,
        count <= u32::MAX ==> crate::verdict::position(count) == count,
        count > u32::MAX ==> crate::verdict::position(count) == u32::MAX,
{
}

/// A number in decimal ends with the digit of its last place, and before
/// that reads as the number without it.
pub proof fn law_a_number_reads_in_decimal(number: nat)
    ensures
        ({
            let text = crate::text::decimal_text(number);
            &&& text.len() > 0
            &&& text.last() as int == '0' as int + number % 10
            &&& number >= 10 ==> text.drop_last() == crate::text::decimal_text(number / 10)
            &&& number < 10 ==> text.len() == 1
        }),
{
    lemma_digit(number % 10);
    let text = crate::text::decimal_text(number);
    if number >= 10 {
        assert(text.drop_last() =~= crate::text::decimal_text(number / 10));
    }
}

/// A digit is the character of its place after nought.
proof fn lemma_digit(digit: nat)
    requires
        digit < 10,
    ensures
        crate::text::digit_text(digit).len() == 1,
        crate::text::digit_text(digit)[0] as int == '0' as int + digit,
{
    reveal_strlit("0");
    reveal_strlit("1");
    reveal_strlit("2");
    reveal_strlit("3");
    reveal_strlit("4");
    reveal_strlit("5");
    reveal_strlit("6");
    reveal_strlit("7");
    reveal_strlit("8");
    reveal_strlit("9");
}

/// Bytes in hexadecimal are two characters for each, the high half before
/// the low, a half of ten or more by a letter from a on.
pub proof fn law_bytes_read_in_hexadecimal(raw: Seq<u8>)
    ensures
        ({
            let text = crate::text::hex_text(raw);
            &&& text.len() == 2 * raw.len()
            &&& raw.len() > 0 ==> {
                let last = raw.last() as int;
                &&& text.take(text.len() - 2) == crate::text::hex_text(raw.drop_last())
                &&& text[text.len() - 2] as int == (if last / 16 < 10 {
                    '0' as int + last / 16
                } else {
                    'a' as int + (last / 16 - 10)
                })
                &&& text[text.len() - 1] as int == (if last % 16 < 10 {
                    '0' as int + last % 16
                } else {
                    'a' as int + (last % 16 - 10)
                })
            }
        }),
    decreases raw.len(),
{
    if raw.len() > 0 {
        law_bytes_read_in_hexadecimal(raw.drop_last());
        lemma_nibble((raw.last() as nat / 16) as nat);
        lemma_nibble((raw.last() as nat % 16) as nat);
        let text = crate::text::hex_text(raw);
        assert(text.take(text.len() - 2) =~= crate::text::hex_text(raw.drop_last()));
    }
}

/// Half a byte is a digit, or a letter from a on.
proof fn lemma_nibble(value: nat)
    requires
        value < 16,
    ensures
        crate::text::nibble_text(value).len() == 1,
        crate::text::nibble_text(value)[0] as int == (if value < 10 {
            '0' as int + value
        } else {
            'a' as int + (value - 10)
        }),
{
    reveal_strlit("a");
    reveal_strlit("b");
    reveal_strlit("c");
    reveal_strlit("d");
    reveal_strlit("e");
    reveal_strlit("f");
    if value < 10 {
        lemma_digit(value);
    }
}

/// Text set to a width is that wide where it was narrower, blanks making
/// up the rest before it or after it, and is itself where it was not.
pub proof fn law_text_is_set_to_its_width(text: Seq<char>, width: nat)
    ensures
        ({
            let right = crate::text::right_text(text, width);
            let left = crate::text::left_text(text, width);
            let wide = if text.len() < width {
                width
            } else {
                text.len()
            };
            &&& right.len() == wide && left.len() == wide
            &&& text.is_suffix_of(right) && text.is_prefix_of(left)
            &&& forall|i: int| 0 <= i < wide - text.len() ==> #[trigger] right[i] == ' '
            &&& forall|i: int| text.len() <= i < wide ==> #[trigger] left[i] == ' '
        }),
{
    let right = crate::text::right_text(text, width);
    let left = crate::text::left_text(text, width);
    if text.len() < width {
        lemma_blanks((width - text.len()) as nat);
    }
    assert(right.subrange(right.len() - text.len(), right.len() as int) =~= text);
    assert(left.subrange(0, text.len() as int) =~= text);
}

/// Blanks are so many spaces.
proof fn lemma_blanks(count: nat)
    ensures
        crate::text::blanks_text(count).len() == count,
        forall|i: int| 0 <= i < count ==> #[trigger] crate::text::blanks_text(count)[i] == ' ',
    decreases count,
{
    reveal_strlit(" ");
    if count > 0 {
        lemma_blanks((count - 1) as nat);
    }
}

/// Trimmed text is the text up to its last character that is not blank: a
/// space, a tab and a line's end are gone from its end, and nothing else.
pub proof fn law_trimming_takes_off_blanks(text: Seq<char>)
    ensures
        ({
            let kept = crate::text::trimmed_text(text);
            &&& kept.is_prefix_of(text)
            &&& kept.len() > 0 ==> kept.last() != ' ' && kept.last() != '\n' && kept.last()
                != '\t'
            &&& text.len() > 0 && (text.last() == ' ' || text.last() == '\n' || text.last()
                == '\t') ==> kept == crate::text::trimmed_text(text.drop_last())
            &&& text.len() > 0 && 0x21 <= text.last() as int <= 0x7e ==> kept == text
        }),
    decreases text.len(),
{
    if text.len() > 0 {
        law_trimming_takes_off_blanks(text.drop_last());
        let kept = crate::text::trimmed_text(text);
        assert(kept.len() <= text.len());
        assert(text.subrange(0, kept.len() as int) =~= kept);
    }
}

/// A list of texts is its texts in order with one separator between each
/// two: one more text is one separator more.
pub proof fn law_a_list_separates_its_texts(
    parts: Seq<Seq<char>>,
    between: Seq<char>,
    one: Seq<char>,
)
    ensures
        crate::text::joined_text(Seq::empty(), between).len() == 0,
        crate::text::joined_text(seq![one], between) == one,
        parts.len() > 0 ==> crate::text::joined_text(parts.push(one), between)
            == crate::text::joined_text(parts, between) + between + one,
        crate::text::run_on(parts.push(one)) == crate::text::run_on(parts) + one,
{
    assert(parts.push(one).drop_last() =~= parts);
}

/// A tree lists an intent's members in order, each right before what it
/// holds itself: nothing is left out and nothing is listed twice.
pub proof fn law_a_tree_lists_every_member_in_order(members: Seq<Member>, i: int)
    requires
        0 <= i < members.len(),
    ensures
        ({
            let all = Intent::signed_of(members);
            let at = Intent::signed_of(members.take(i)).len() as int;
            let after = Intent::signed_of(members.take(i + 1)).len() as int;
            &&& at < after <= all.len()
            &&& all[at] == members[i].signed
            &&& all.subrange(at + 1, after) == Intent::signed_of(members[i].signed.intent.members@)
            &&& i + 1 == members.len() ==> after == all.len()
        }),
{
    lemma_signed_grows(members, i + 1);
    let upto = members.take(i + 1);
    assert(upto.drop_last() =~= members.take(i));
    assert(upto.last() == members[i]);
    let all = Intent::signed_of(members);
    let head = Intent::signed_of(members.take(i));
    let at = head.len() as int;
    let after = Intent::signed_of(upto).len() as int;
    let own = members[i].signed.intent.all_signed();
    assert(Intent::signed_of(upto) == head + (seq![members[i].signed] + own));
    assert(Intent::signed_of(upto)[at] == members[i].signed);
    assert(all.subrange(at + 1, after) =~= Intent::signed_of(upto).subrange(at + 1, after));
    assert(Intent::signed_of(upto).subrange(at + 1, after) =~= own);
    if i + 1 == members.len() {
        assert(upto =~= members);
    }
}

/// What the first members list, all of them list first.
proof fn lemma_signed_grows(members: Seq<Member>, until: int)
    requires
        0 <= until <= members.len(),
    ensures
        Intent::signed_of(members.take(until)).len() <= Intent::signed_of(members).len(),
        forall|k: int|
            0 <= k < Intent::signed_of(members.take(until)).len() ==> #[trigger] Intent::signed_of(
                members.take(until),
            )[k] == Intent::signed_of(members)[k],
    decreases members.len(),
{
    if until == members.len() {
        assert(members.take(until) =~= members);
    } else {
        let before = members.drop_last();
        lemma_signed_grows(before, until);
        assert(before.take(until) =~= members.take(until));
    }
}

/// A tree's intents are its root, then every intent signed beneath it, in
/// the order it lists them.
pub proof fn law_a_tree_leads_with_its_root(tree: IntentTree, i: int)
    ensures
        tree.all_intents().len() == 1 + Intent::signed_of(tree.root.members@).len(),
        tree.all_intents()[0] == tree.root,
        0 <= i < Intent::signed_of(tree.root.members@).len() ==> tree.all_intents()[i + 1]
            == Intent::signed_of(tree.root.members@)[i].intent,
{
}

/// A tree has as many nodes as its intents' graphs have together.
pub proof fn law_a_tree_counts_every_graphs_nodes(intents: Seq<Intent>, one: Intent)
    ensures
        crate::tree::nodes_of(Seq::empty()) == 0,
        crate::tree::nodes_of(intents.push(one)) == crate::tree::nodes_of(intents)
            + one.graph.nodes@.len(),
{
    assert(intents.push(one).drop_last() =~= intents);
}

/// An intent of no members nests one deep, and one of members one deeper
/// than the deepest of them.
pub proof fn law_an_intent_nests_one_deeper_than_its_members(intent: Intent, i: int)
    ensures
        intent.members@.len() == 0 ==> intent.nesting() == 1,
        0 <= i < intent.members@.len() ==> intent.members@[i].signed.intent.nesting()
            < intent.nesting(),
        intent.members@.len() > 0 ==> exists|k: int|
            0 <= k < intent.members@.len() && (
            #[trigger] intent.members@[k]).signed.intent.nesting() + 1 == intent.nesting(),
{
    lemma_deepest_member(intent.members@);
}

/// The deepest of a run of members is as deep as one of them, and no other
/// is deeper.
proof fn lemma_deepest_member(members: Seq<Member>)
    ensures
        members.len() == 0 ==> Intent::deepest(members) == 0,
        forall|i: int|
            0 <= i < members.len() ==> (#[trigger] members[i]).signed.intent.nesting()
                <= Intent::deepest(members),
        members.len() > 0 ==> exists|k: int|
            0 <= k < members.len() && (#[trigger] members[k]).signed.intent.nesting()
                == Intent::deepest(members),
    decreases members.len(),
{
    if members.len() > 0 {
        let before = members.drop_last();
        lemma_deepest_member(before);
        let last = members.len() - 1;
        assert(members[last] == members.last());
        let own = members[last].signed.intent.nesting();
        assert(own >= 1);
        assert forall|i: int| 0 <= i < members.len() implies (
        #[trigger] members[i]).signed.intent.nesting() <= Intent::deepest(members) by {
            if i < last {
                assert(before[i] == members[i]);
            }
        }
        if Intent::deepest(before) >= own {
            assert(before.len() > 0);
            let k = choose|k: int|
                0 <= k < before.len() && (#[trigger] before[k]).signed.intent.nesting()
                    == Intent::deepest(before);
            assert(members[k] == before[k]);
        } else {
            assert(members[last].signed.intent.nesting() == Intent::deepest(members));
        }
    }
}

/// A package's hash and an intent's, a tree's, a node's and a graph's are
/// each taken under a domain of their own.
pub proof fn law_domains_are_told_apart()
    ensures
        crate::intent::intent_domain() != crate::intent::tree_domain(),
        crate::intent::intent_domain() != crate::graph::node_domain(),
        crate::intent::intent_domain() != crate::graph::graph_domain(),
        crate::intent::intent_domain() != crate::metadata::package_domain(),
        crate::intent::tree_domain() != crate::graph::node_domain(),
        crate::intent::tree_domain() != crate::graph::graph_domain(),
        crate::intent::tree_domain() != crate::metadata::package_domain(),
        crate::graph::node_domain() != crate::graph::graph_domain(),
        crate::graph::node_domain() != crate::metadata::package_domain(),
        crate::graph::graph_domain() != crate::metadata::package_domain(),
{
    reveal_strlit("hyperscale-vm/intent");
    reveal_strlit("hyperscale-vm/intent-tree");
    reveal_strlit("hyperscale-vm/graph-node");
    reveal_strlit("hyperscale-vm/graph");
    reveal_strlit("hyperscale-vm/package");
    vstd::utf8::encode_utf8_decode_utf8("hyperscale-vm/intent"@);
    vstd::utf8::encode_utf8_decode_utf8("hyperscale-vm/intent-tree"@);
    vstd::utf8::encode_utf8_decode_utf8("hyperscale-vm/graph-node"@);
    vstd::utf8::encode_utf8_decode_utf8("hyperscale-vm/graph"@);
    vstd::utf8::encode_utf8_decode_utf8("hyperscale-vm/package"@);
    assert("hyperscale-vm/intent"@.len() == 20);
    assert("hyperscale-vm/intent-tree"@.len() == 25);
    assert("hyperscale-vm/graph-node"@.len() == 24);
    assert("hyperscale-vm/graph"@.len() == 19);
    assert("hyperscale-vm/package"@.len() == 21);
}

/// A signature is refused by the first of its three judgments to refuse
/// it: its bounds, then its declaration, then its binding.
pub proof fn law_a_signature_is_judged_in_order(signature: MethodSignature)
    ensures
        ({
            let verdict = crate::publish::signature_verdict(signature);
            match crate::publish::bounds::bounds_verdict(signature) {
                Err(refusal) => verdict == Err::<(), SignatureError>(
                    SignatureError::Bounds(refusal),
                ),
                Ok(_) => match crate::publish::declaration::declarations_verdict(signature) {
                    Err(refusal) => verdict == Err::<(), SignatureError>(
                        SignatureError::Declaration(refusal),
                    ),
                    Ok(_) => match crate::publish::abi::abi_verdict(signature) {
                        Err(refusal) => verdict == Err::<(), SignatureError>(
                            SignatureError::Abi(refusal),
                        ),
                        Ok(_) => verdict is Ok,
                    },
                },
            }
        }),
{
}

/// One key is listed before another exactly where it is the lesser at the
/// first place they differ, or ends where the other goes on.
#[verifier::rlimit(60)]
pub proof fn law_keys_are_listed_in_order(left: Seq<int>, right: Seq<int>)
    ensures
        crate::table::before(left, right) <==> exists|k: int|
            0 <= k <= left.len() && k < right.len() && #[trigger] left.take(k) == right.take(k)
                && (k == left.len() || left[k] < right[k]),
    decreases left.len(),
{
    if left.len() > 0 && right.len() > 0 && left[0] == right[0] {
        let near = left.skip(1);
        let far = right.skip(1);
        law_keys_are_listed_in_order(near, far);
        if crate::table::before(near, far) {
            let k = choose|k: int|
                0 <= k <= near.len() && k < far.len() && #[trigger] near.take(k) == far.take(k) && (
                k == near.len() || near[k] < far[k]);
            assert(left.take(k + 1) =~= seq![left[0]] + near.take(k));
            assert(right.take(k + 1) =~= seq![right[0]] + far.take(k));
            assert(left.take(k + 1) == right.take(k + 1));
            if k < near.len() {
                assert(near[k] == left[k + 1] && far[k] == right[k + 1]);
            }
        }
        if exists|k: int|
            0 <= k <= left.len() && k < right.len() && #[trigger] left.take(k) == right.take(k) && (
            k == left.len() || left[k] < right[k]) {
            let k = choose|k: int|
                0 <= k <= left.len() && k < right.len() && #[trigger] left.take(k) == right.take(k)
                    && (k == left.len() || left[k] < right[k]);
            assert(k > 0);
            assert(near.take(k - 1) =~= left.take(k).skip(1));
            assert(far.take(k - 1) =~= right.take(k).skip(1));
            assert(near.take(k - 1) == far.take(k - 1));
            if k < left.len() {
                assert(near[k - 1] == left[k] && far[k - 1] == right[k]);
            }
        }
    } else if left.len() == 0 && right.len() > 0 {
        assert(left.take(0) == right.take(0));
    } else if left.len() > 0 && right.len() > 0 {
        if left[0] < right[0] {
            assert(left.take(0) == right.take(0));
        }
        if exists|k: int|
            0 <= k <= left.len() && k < right.len() && #[trigger] left.take(k) == right.take(k) && (
            k == left.len() || left[k] < right[k]) {
            let k = choose|k: int|
                0 <= k <= left.len() && k < right.len() && #[trigger] left.take(k) == right.take(k)
                    && (k == left.len() || left[k] < right[k]);
            if k > 0 {
                assert(left.take(k)[0] == left[0]);
                assert(right.take(k)[0] == right[0]);
            }
        }
    }
}

/// Behaviours are listed in the order of a resource's life: minted,
/// burned, withdrawn, deposited, frozen, recalled.
pub proof fn law_behaviours_are_listed_in_order()
    ensures
        GrantedBehaviour::Mint.rank() < GrantedBehaviour::Burn.rank(),
        GrantedBehaviour::Burn.rank() < GrantedBehaviour::Withdraw.rank(),
        GrantedBehaviour::Withdraw.rank() < GrantedBehaviour::Deposit.rank(),
        GrantedBehaviour::Deposit.rank() < GrantedBehaviour::Freeze.rank(),
        GrantedBehaviour::Freeze.rank() < GrantedBehaviour::Recall.rank(),
{
}

/// An address in bytes is its body and then its class, so two are the same
/// bytes exactly where they are one address.
pub proof fn law_an_address_is_its_bytes(one: Address, other: Address)
    ensures
        one.bytes().len() == 32,
        one.bytes().take(31) == one.body@,
        one.bytes()[31] == (match one.class {
            AddressClass::Principal => 0u8,
            AddressClass::Component => 1u8,
            AddressClass::Package => 2u8,
            AddressClass::Resource => 3u8,
            AddressClass::Restricted => 4u8,
            AddressClass::Native => 5u8,
        }),
        one.bytes() == other.bytes() <==> one == other,
{
    assert(one.bytes().take(31) =~= one.body@);
    assert(other.bytes().take(31) =~= other.body@);
    if one.bytes() == other.bytes() {
        assert(one.body =~= other.body);
        assert(one.bytes()[31] == other.bytes()[31]);
    }
}

/// A rule put on a call is heard before it is a transaction where it asks
/// for nothing but claims, before any body runs where it asks for nothing
/// but presences, and inside the call where it reads a stored rule or asks
/// for both.
pub proof fn law_a_rule_is_heard_when_its_leaves_can_be(rule: Rule<JudgedLeaf>)
    ensures
        ({
            let leaves = rule.all_leaves();
            rule.stage() == (if forall|i: int|
                0 <= i < leaves.len() ==> #[trigger] leaves[i] is Claim {
                Judged::AtAdmission
            } else if forall|i: int| 0 <= i < leaves.len() ==> #[trigger] leaves[i] is Presence {
                Judged::AtMaterialization
            } else {
                Judged::InTheLeg
            })
        }),
{
    let leaves = rule.all_leaves();
    if leaves.len() > 0 {
        let first = leaves[0];
        if forall|i: int| 0 <= i < leaves.len() ==> (#[trigger] leaves[i]).stage() == first.stage() {
            assert forall|i: int| 0 <= i < leaves.len() implies (#[trigger] leaves[i] is Claim)
                == first is Claim && (leaves[i] is Presence) == (first is Presence) by {
                assert(leaves[i].stage() == first.stage());
            }
        } else {
            let k = choose|k: int|
                0 <= k < leaves.len() && (#[trigger] leaves[k]).stage() != first.stage();
            assert(!(leaves[k] is Claim && first is Claim));
            assert(!(leaves[k] is Presence && first is Presence));
        }
    }
}

/// Every expression a signature is written with is walked for the
/// resources it mentions: what it yields, what it takes, what its export
/// is handed, and of every clause the judgment it stands under, the key or
/// the owner, material and ends it reaches, what it reserves and holds, the
/// list it loops over and the claim it proves.
pub proof fn law_every_expression_is_walked(signature: MethodSignature, expr: Expr, k: int)
    ensures
        ({
            let walked = crate::explain::census::signature_inside(signature);
            let flat = Clause::preorder(signature.effects@);
            &&& 0 <= k < signature.outputs@.len() && signature.outputs@[k] == expr
                ==> walked.contains(expr)
            &&& 0 <= k < signature.denominations@.len() && signature.denominations@[k] == Some(
                expr,
            ) ==> walked.contains(expr)
            &&& 0 <= k < signature.abi@.len() && signature.abi@[k] == AbiParam::Derived(expr)
                ==> walked.contains(expr)
            &&& 0 <= k < flat.len() && says(flat[k], expr) ==> walked.contains(expr)
        }),
{
    let stated = crate::explain::census::stated(signature.denominations@);
    let derived = crate::explain::census::derived(signature.abi@);
    let flat = Clause::preorder(signature.effects@);
    let clauses = crate::explain::census::clauses_inside(flat);
    let walked = crate::explain::census::signature_inside(signature);
    let outputs = signature.outputs@;
    assert(walked == stated + outputs + derived + clauses);
    if 0 <= k < outputs.len() && outputs[k] == expr {
        assert(walked[stated.len() + k] == expr);
    }
    let takes = Seq::new(
        signature.denominations@.len(),
        |i: int|
            match signature.denominations@[i] {
                Some(resource) => seq![resource],
                None => Seq::empty(),
            },
    );
    lemma_spliced_from(takes, expr);
    if 0 <= k < signature.denominations@.len() && signature.denominations@[k] == Some(expr) {
        assert(takes[k][0] == expr);
        assert(takes[k].contains(expr));
        assert(stated.contains(expr));
        let m = choose|m: int| 0 <= m < stated.len() && stated[m] == expr;
        assert(walked[m] == expr);
    }
    let handed = Seq::new(
        signature.abi@.len(),
        |i: int|
            match signature.abi@[i] {
                AbiParam::Derived(held) => seq![held],
                _ => Seq::empty(),
            },
    );
    lemma_spliced_from(handed, expr);
    if 0 <= k < signature.abi@.len() && signature.abi@[k] == AbiParam::Derived(expr) {
        assert(handed[k][0] == expr);
        assert(handed[k].contains(expr));
        assert(derived.contains(expr));
        let m = choose|m: int| 0 <= m < derived.len() && derived[m] == expr;
        assert(walked[stated.len() + outputs.len() + m] == expr);
    }
    let parts = Seq::new(flat.len(), |i: int| crate::explain::census::clause_inside(flat[i]));
    lemma_spliced_from(parts, expr);
    if 0 <= k < flat.len() && says(flat[k], expr) {
        lemma_clause_walked(flat[k], expr);
        assert(parts[k].contains(expr));
        assert(clauses.contains(expr));
        let m = choose|m: int| 0 <= m < clauses.len() && clauses[m] == expr;
        assert(walked[stated.len() + outputs.len() + derived.len() + m] == expr);
    }
}

/// Whether a clause is written with an expression, a condition's rule
/// aside.
pub open spec fn says(clause: Clause, expr: Expr) -> bool {
    ||| crate::publish::faults::judgment_on(clause) matches Some(judgment) && *judgment == expr
    ||| match clause {
        Clause::Effect { target, mode, denomination, .. } => {
            ||| denomination matches Some(held) && *held == expr
            ||| mode matches ModeExpr::Reserve(amount) && amount == expr
            ||| match target {
                TargetExpr::Point(key) => key == expr,
                TargetExpr::Entry { owner, material, order, .. } => owner == expr || order == expr
                    || material@.contains(expr),
                TargetExpr::Range { owner, material, lo, hi, cap, .. } => owner == expr || lo
                    == expr || hi == expr || cap == expr || material@.contains(expr),
            }
        },
        Clause::ForEach { list, .. } => list == expr,
        Clause::Mints { claim, .. } => claim == expr,
        Clause::Requires { .. } => false,
    }
}

/// What a clause is written with is walked.
proof fn lemma_clause_walked(clause: Clause, expr: Expr)
    requires
        says(clause, expr),
    ensures
        crate::explain::census::clause_inside(clause).contains(expr),
{
    let all = crate::explain::census::clause_inside(clause);
    let guard = crate::explain::census::optional(clause.condition());
    match clause.condition() {
        Some(judgment) => {
            if *judgment == expr {
                assert(all[0] == expr);
            }
        },
        None => {},
    }
    match clause {
        Clause::Effect { target, mode, denomination, .. } => {
            let inside = crate::explain::census::target_inside(target);
            let amount = match mode {
                ModeExpr::Reserve(amount) => seq![amount],
                _ => Seq::<Expr>::empty(),
            };
            let held = crate::explain::census::optional(denomination);
            assert(all == guard + inside + amount + held);
            if denomination is Some && *denomination->Some_0 == expr {
                assert(all[(guard + inside + amount).len() as int] == expr);
            }
            if mode is Reserve && mode->Reserve_0 == expr {
                assert(all[(guard + inside).len() as int] == expr);
            }
            lemma_target_walked(target, expr);
            if inside.contains(expr) {
                let m = choose|m: int| 0 <= m < inside.len() && inside[m] == expr;
                assert(all[guard.len() + m] == expr);
            }
        },
        Clause::ForEach { list, .. } => {
            if list == expr {
                assert(all[guard.len() as int] == expr);
            }
        },
        Clause::Mints { claim, .. } => {
            if claim == expr {
                assert(all[guard.len() as int] == expr);
            }
        },
        _ => {},
    }
}

/// What a target is written with is walked.
proof fn lemma_target_walked(target: TargetExpr, expr: Expr)
    ensures
        (match target {
            TargetExpr::Point(key) => key == expr,
            TargetExpr::Entry { owner, material, order, .. } => owner == expr || order == expr
                || material@.contains(expr),
            TargetExpr::Range { owner, material, lo, hi, cap, .. } => owner == expr || lo == expr
                || hi == expr || cap == expr || material@.contains(expr),
        }) ==> crate::explain::census::target_inside(target).contains(expr),
{
    let inside = crate::explain::census::target_inside(target);
    match target {
        TargetExpr::Point(key) => {
            assert(inside[0] == key);
        },
        TargetExpr::Entry { owner, collection, material, order } => {
            let lead = 1 + collection.naming().len() as int;
            assert(inside[0] == owner);
            assert(inside[lead + material@.len()] == order);
            if material@.contains(expr) {
                let m = choose|m: int| 0 <= m < material@.len() && material@[m] == expr;
                assert(inside[lead + m] == expr);
            }
        },
        TargetExpr::Range { owner, collection, material, lo, hi, cap } => {
            let lead = 1 + collection.naming().len() as int;
            assert(inside[0] == owner);
            assert(inside[lead + material@.len()] == lo);
            assert(inside[lead + material@.len() + 1] == hi);
            assert(inside[lead + material@.len() + 2] == cap);
            if material@.contains(expr) {
                let m = choose|m: int| 0 <= m < material@.len() && material@[m] == expr;
                assert(inside[lead + m] == expr);
            }
        },
    }
}

/// The resources table lists every resource of the package's own that an
/// expression of a method is, by its kind, what names it and what it
/// grants.
pub proof fn law_every_mention_is_tabled(
    metadata: PackageMetadata,
    method: int,
    kind: ResourceKind,
    material: Vec<Expr>,
    grants: crate::resource::GrantsExpr,
)
    requires
        0 <= method < metadata.methods.listed().len(),
        crate::explain::census::signature_inside(metadata.methods.listed()[method].1).contains(
            (Expr::SelfResource { kind, material, grants }),
        ),
    ensures
        ({
            let bare = Lexicon { metadata, census: Seq::empty() };
            crate::explain::census::lexicon_of(metadata).census.contains(
                Row {
                    kind: if kind == ResourceKind::NonFungible {
                        "non-fungible"@
                    } else {
                        "fungible"@
                    },
                    material: bare.material(material@),
                    granting: bare.granting(grants),
                },
            )
        }),
{
    let bare = Lexicon { metadata, census: Seq::empty() };
    let expr = Expr::SelfResource { kind, material, grants };
    let methods = metadata.methods.listed();
    let signature = methods[method].1;
    let exprs = crate::explain::census::signature_inside(signature);
    let k = choose|k: int| 0 <= k < exprs.len() && exprs[k] == expr;
    let row = bare.own_row(expr)[0];
    let mentioned = bare.mentions(expr);
    assert(mentioned[0] == row);
    assert(mentioned.contains(row));
    let runs = Seq::new(exprs.len(), |i: int| bare.mentions(exprs[i]));
    assert(runs[k].contains(row));
    lemma_spliced_from(runs, row);
    let spliced = crate::runs::spliced(runs);
    let issued = Seq::new(
        signature.issues@.len(),
        |i: int| bare.issuance_row(signature.issues@[i]),
    );
    let rows = bare.signature_rows(signature);
    assert(rows == issued + spliced);
    let m = choose|m: int| 0 <= m < spliced.len() && spliced[m] == row;
    assert(rows[issued.len() + m] == row);
    assert(rows.contains(row));
    let parts = Seq::new(methods.len(), |i: int| bare.signature_rows(methods[i].1));
    assert(parts[method].contains(row));
    lemma_spliced_from(parts, row);
    assert(crate::explain::census::occurrences(metadata) == crate::runs::spliced(parts));
    assert(crate::explain::census::occurrences(metadata).contains(row));
    crate::explain::census::law_a_resource_is_spelled_once(metadata);
}

/// A line of the resources table is a resource's kind and what names it,
/// and what it grants where it grants anything.
pub proof fn law_a_resources_line_says_what_it_grants(census: Seq<Row>, i: int)
    requires
        0 <= i < census.len(),
    ensures
        ({
            let line = crate::explain::package::resource_lines(census)[i];
            &&& census[i].granting.len() == 0 ==> line == "  "@ + census[i].kind
                + census[i].material + "\n"@
            &&& census[i].granting.len() > 0 ==> line == "  "@ + census[i].kind
                + census[i].material + " — "@ + census[i].granting + "\n"@
        }),
{
    let row = census[i];
    let lead = "  "@ + row.kind + row.material;
    assert(lead + Seq::<char>::empty() + "\n"@ =~= lead + "\n"@);
    assert(lead + (" — "@ + row.granting) + "\n"@ =~= lead + " — "@ + row.granting + "\n"@);
}

} // verus!
