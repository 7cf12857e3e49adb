//! Admitting a tree: its shape, its identities, and the nullifiers that
//! make each of its intents once-only.
use vstd::array::array_as_slice;
use vstd::prelude::*;

use crate::admission::Admitted;
use crate::effect::{Effect, EffectTarget, Mode, Moves};
use crate::graph::{GraphArg, GraphNode, ManifestGraph};
use crate::hash::Hasher;
use crate::instance::InstanceMeta;
use crate::intent::{
    Intent, IntentEncoding, IntentHash, IntentRecord, IntentTree, Member, Nullifier,
};
use crate::manifest::ManifestHash;
use crate::term::copy_bytes;
use crate::types::{SubstateKey, MAX_VALUE_DEPTH};

verus! {

/// Why a tree is refused, where `E` is what refuses it beyond what is
/// judged here.
#[derive(Debug, PartialEq, Eq)]
pub enum TreeRefusal<E> {
    /// The tree does not flatten: its intents, its depth, its nodes, an
    /// intent's accounts or attesting set, or a member's wiring.
    Shape(E),
    /// A literal or a presented record nests past the value depth.
    ValueTooDeep,
    /// Two intents of the tree are one intent.
    DuplicateIntent {
        /// The later one's place, in tree order.
        index: u32,
    },
    /// A socket or a give does not resolve.
    Unresolved(E),
    /// The intents themselves are not admissible.
    Refused(E),
}

/// Why bytes are not a tree admission could run over, where `D` is what
/// refuses to decode them.
#[derive(Debug, PartialEq, Eq)]
pub enum TreeDecodeError<D, E> {
    /// Not a tree, or one nested past the depth the vocabulary admits.
    Decode(D),
    /// A tree, and one past the shape admission holds a tree to.
    Shape(TreeRefusal<E>),
}

/// Whether an argument is a literal nesting past the value depth.
pub open spec fn is_deep_argument(arg: GraphArg) -> bool {
    arg matches GraphArg::Literal(value) && value.depth() > MAX_VALUE_DEPTH
}

/// Whether a node takes a literal nesting past the value depth.
pub open spec fn is_deep_node(node: GraphNode) -> bool {
    exists|i: int| 0 <= i < node.args@.len() && is_deep_argument(#[trigger] node.args@[i])
}

/// Whether a graph takes a literal nesting past the value depth.
pub open spec fn is_deep_graph(graph: ManifestGraph) -> bool {
    exists|i: int| 0 <= i < graph.nodes@.len() && is_deep_node(#[trigger] graph.nodes@[i])
}

/// Whether a record's configuration nests past the value depth.
pub open spec fn is_deep_record(meta: InstanceMeta) -> bool {
    exists|i: int|
        0 <= i < meta.config@.len() && (#[trigger] meta.config@[i]).depth() > MAX_VALUE_DEPTH
}

/// Whether a node takes a literal nesting past the value depth.
fn node_nests(node: &GraphNode) -> (r: bool)
    ensures
        r == is_deep_node(*node),
{
    let mut i: usize = 0;
    while i < node.args.len()
        invariant
            i <= node.args.len(),
            forall|j: int| 0 <= j < i ==> !is_deep_argument(#[trigger] node.args@[j]),
        decreases node.args.len() - i,
    {
        match &node.args[i] {
            GraphArg::Literal(value) => {
                if value.nests_past(MAX_VALUE_DEPTH) {
                    assert(is_deep_argument(node.args@[i as int]));
                    return true;
                }
            },
            _ => {},
        }
        i = i + 1;
    }
    false
}

/// Hold a graph's literals to the value depth.
pub fn check_value_depth(graph: &ManifestGraph) -> (r: bool)
    ensures
        r == !is_deep_graph(*graph),
{
    let mut i: usize = 0;
    while i < graph.nodes.len()
        invariant
            i <= graph.nodes.len(),
            forall|j: int| 0 <= j < i ==> !is_deep_node(#[trigger] graph.nodes@[j]),
        decreases graph.nodes.len() - i,
    {
        if node_nests(&graph.nodes[i]) {
            assert(is_deep_node(graph.nodes@[i as int]));
            return false;
        }
        i = i + 1;
    }
    true
}

/// Hold presented records to the value depth.
pub fn check_instance_value_depth(instances: &Vec<InstanceMeta>) -> (r: bool)
    ensures
        r == !exists|i: int|
            0 <= i < instances@.len() && is_deep_record(#[trigger] instances@[i]),
{
    let mut i: usize = 0;
    while i < instances.len()
        invariant
            i <= instances.len(),
            forall|j: int| 0 <= j < i ==> !is_deep_record(#[trigger] instances@[j]),
        decreases instances.len() - i,
    {
        let config = &instances[i].config;
        let mut k: usize = 0;
        while k < config.len()
            invariant
                i < instances.len(),
                config == instances@[i as int].config,
                k <= config.len(),
                forall|j: int| 0 <= j < k ==> (#[trigger] config@[j]).depth() <= MAX_VALUE_DEPTH,
            decreases config.len() - k,
        {
            if config[k].nests_past(MAX_VALUE_DEPTH) {
                assert(is_deep_record(instances@[i as int])) by {
                    assert(instances@[i as int].config@[k as int].depth() > MAX_VALUE_DEPTH);
                }
                return false;
            }
            k = k + 1;
        }
        assert(!is_deep_record(instances@[i as int]));
        i = i + 1;
    }
    true
}

impl Intent {
    /// The identities of this intent and of every one beneath it, in tree
    /// order.
    pub open spec fn all_identities<H: Hasher>(self, hasher: H, encoding: IntentEncoding) -> Seq<
        IntentHash,
    >
        decreases self, 1int,
    {
        seq![self.identity(hasher, encoding)] + crate::runs::spliced(
            self.identities_beneath(hasher, encoding),
        )
    }

    /// The identities of each member and of every intent beneath it.
    pub open spec fn identities_beneath<H: Hasher>(
        self,
        hasher: H,
        encoding: IntentEncoding,
    ) -> Seq<Seq<IntentHash>>
        decreases self, 0int,
    {
        let members = self.members@;
        Seq::new(
            members.len(),
            |i: int|
                if 0 <= i < members.len() {
                    members[i].signed.intent.all_identities(hasher, encoding.members@[i].intent)
                } else {
                    Seq::empty()
                },
        )
    }

    /// The encodings of this intent and of every one beneath it, in tree
    /// order.
    pub open spec fn all_encodings(self, encoding: IntentEncoding) -> Seq<IntentEncoding>
        decreases self, 1int,
    {
        seq![encoding] + crate::runs::spliced(self.encodings_beneath(encoding))
    }

    /// The encodings of each member and of every intent beneath it.
    pub open spec fn encodings_beneath(self, encoding: IntentEncoding) -> Seq<Seq<IntentEncoding>>
        decreases self, 0int,
    {
        let members = self.members@;
        Seq::new(
            members.len(),
            |i: int|
                if 0 <= i < members.len() {
                    members[i].signed.intent.all_encodings(encoding.members@[i].intent)
                } else {
                    Seq::empty()
                },
        )
    }

    /// The identities of this intent and of every one beneath it, in tree
    /// order, each computed once.
    fn hashes<H: Hasher>(&self, hasher: &H, encoding: &IntentEncoding) -> (r: Vec<IntentHash>)
        requires
            self.is_encoded_by(*encoding),
        ensures
            r@ == self.all_identities(*hasher, *encoding),
        decreases self,
    {
        let ghost own = self.member_identities(*hasher, *encoding);
        let ghost beneath = self.identities_beneath(*hasher, *encoding);
        let mut members: Vec<IntentHash> = Vec::new();
        let mut below: Vec<IntentHash> = Vec::new();
        let mut i: usize = 0;
        assert(beneath.take(0) =~= Seq::empty());
        while i < self.members.len()
            invariant
                i <= self.members.len(),
                self.is_encoded_by(*encoding),
                members.len() == i,
                own == self.member_identities(*hasher, *encoding),
                beneath == self.identities_beneath(*hasher, *encoding),
                forall|j: int| 0 <= j < i ==> #[trigger] members@[j] == own[j],
                below@ == crate::runs::spliced(beneath.take(i as int)),
            decreases self.members.len() - i,
        {
            assert(self.members@[i as int].signed.intent.is_encoded_by(
                encoding.members@[i as int].intent,
            ));
            assert(decreases_to!(self.members@ => self.members@[i as int]));
            let mut one = self.members[i].signed.intent.hashes(
                hasher,
                &encoding.members[i].intent,
            );
            proof {
                crate::runs::lemma_one_more(beneath, i as int);
                assert(one@ == beneath[i as int]);
                assert(one@[0] == own[i as int]);
            }
            members.push(one[0]);
            below.append(&mut one);
            i = i + 1;
        }
        assert(members@ =~= own);
        assert(beneath.take(i as int) =~= beneath);
        let mut r: Vec<IntentHash> = Vec::new();
        r.push(self.hash_over(&members, hasher, encoding));
        r.append(&mut below);
        assert(r@ =~= self.all_identities(*hasher, *encoding));
        r
    }
}

/// How many nodes a run of intents lowers to.
pub open spec fn nodes_of(intents: Seq<Intent>) -> nat
    decreases intents.len(),
{
    if intents.len() == 0 {
        0
    } else {
        nodes_of(intents.drop_last()) + intents.last().graph.nodes@.len()
    }
}

/// The first of a run of intents lower to no more nodes than all of them.
proof fn lemma_nodes_grow(intents: Seq<Intent>, taken: int)
    requires
        0 <= taken <= intents.len(),
    ensures
        nodes_of(intents.take(taken)) <= nodes_of(intents),
    decreases intents.len() - taken,
{
    if taken == intents.len() {
        assert(intents.take(taken) =~= intents);
    } else {
        assert(intents.take(taken + 1).drop_last() =~= intents.take(taken));
        lemma_nodes_grow(intents, taken + 1);
    }
}

impl IntentTree {
    /// Every intent the tree holds, in tree order.
    pub open spec fn all_intents(self) -> Seq<Intent> {
        self.root.all_intents()
    }

    /// Whether a literal of any intent, or a presented record, nests past
    /// the value depth.
    pub open spec fn is_deep(self) -> bool {
        ||| exists|i: int|
            0 <= i < self.all_intents().len() && is_deep_graph(
                (#[trigger] self.all_intents()[i]).graph,
            )
        ||| exists|i: int|
            0 <= i < self.instances@.len() && is_deep_record(#[trigger] self.instances@[i])
    }

    /// The verdict on the tree's shape: that it flattens, and then that
    /// nothing in it nests past the value depth.
    pub open spec fn shape_verdict<E>(self, flattened: Result<(), E>) -> Result<
        (),
        TreeRefusal<E>,
    > {
        match flattened {
            Err(refusal) => Err(TreeRefusal::Shape(refusal)),
            Ok(_) => if self.is_deep() {
                Err(TreeRefusal::ValueTooDeep)
            } else {
                Ok(())
            },
        }
    }

    /// A tree of one intent: a graph its own account signs, composing
    /// nobody.
    pub fn of_one(root: Intent) -> (r: Self)
        ensures
            r.root == root,
            r.instances@.len() == 0,
            r.resources@.len() == 0,
    {
        IntentTree { root, instances: Vec::new(), resources: Vec::new() }
    }

    /// Every intent the tree holds, in tree order.
    pub fn intents(&self) -> (r: Vec<&Intent>)
        ensures
            r@.unref() == self.all_intents(),
    {
        let mut intents: Vec<&Intent> = Vec::new();
        intents.push(&self.root);
        let signed = self.root.signed_members();
        let ghost all = self.root.all_signed();
        let mut i: usize = 0;
        while i < signed.len()
            invariant
                i <= signed.len(),
                signed@.unref() == all,
                intents@.len() == i + 1,
                *intents@[0] == self.root,
                forall|j: int| 1 <= j <= i ==> *(#[trigger] intents@[j]) == all[j - 1].intent,
            decreases signed.len() - i,
        {
            assert(signed@.unref()[i as int] == *signed@[i as int]);
            intents.push(&signed[i].intent);
            i = i + 1;
        }
        assert(all == self.root.all_signed());
        assert(intents@.unref() =~= self.all_intents());
        intents
    }

    /// Hold the tree to its shape: everything flattening holds a tree to,
    /// which `flattened` says, and the value depth of every literal and
    /// presented record. What has to be true before anything hashes or
    /// walks it.
    ///
    /// # Errors
    ///
    /// Any [`TreeRefusal`] the shape earns.
    pub fn check_shape<E>(&self, flattened: Result<(), E>) -> (r: Result<(), TreeRefusal<E>>)
        ensures
            r == self.shape_verdict(flattened),
    {
        match flattened {
            Err(refusal) => {
                return Err(TreeRefusal::Shape(refusal));
            },
            Ok(_) => {},
        }
        let intents = self.intents();
        let mut i: usize = 0;
        while i < intents.len()
            invariant
                i <= intents.len(),
                flattened is Ok,
                intents@.unref() == self.all_intents(),
                forall|j: int|
                    0 <= j < i ==> !is_deep_graph((#[trigger] self.all_intents()[j]).graph),
            decreases intents.len() - i,
        {
            assert(intents@.unref()[i as int] == *intents@[i as int]);
            if !check_value_depth(&intents[i].graph) {
                assert(is_deep_graph(self.all_intents()[i as int].graph));
                return Err(TreeRefusal::ValueTooDeep);
            }
            i = i + 1;
        }
        if !check_instance_value_depth(&self.instances) {
            return Err(TreeRefusal::ValueTooDeep);
        }
        Ok(())
    }

    /// Every intent's hash, in tree order, each computed once.
    pub fn hashes<H: Hasher>(&self, hasher: &H, encoding: &IntentEncoding) -> (r: Vec<IntentHash>)
        requires
            self.root.is_encoded_by(*encoding),
        ensures
            r@ == self.root.all_identities(*hasher, *encoding),
    {
        self.root.hashes(hasher, encoding)
    }

    /// How many nodes the tree lowers to, over every intent it carries.
    pub fn node_count(&self) -> (r: usize)
        requires
            nodes_of(self.all_intents()) <= usize::MAX,
        ensures
            r == nodes_of(self.all_intents()),
    {
        let intents = self.intents();
        let ghost all = self.all_intents();
        let mut count: usize = 0;
        let mut i: usize = 0;
        assert(all.take(0) =~= Seq::empty());
        while i < intents.len()
            invariant
                i <= intents.len(),
                intents@.unref() == all,
                nodes_of(all) <= usize::MAX,
                count == nodes_of(all.take(i as int)),
            decreases intents.len() - i,
        {
            proof {
                assert(intents@.unref()[i as int] == *intents@[i as int]);
                assert(all.take(i as int + 1).drop_last() =~= all.take(i as int));
                assert(all.take(i as int + 1).last() == all[i as int]);
                lemma_nodes_grow(all, i as int + 1);
            }
            count = count + intents[i].graph.nodes.len();
            i = i + 1;
        }
        assert(all.take(i as int) =~= all);
        count
    }

    /// The tree's own identity: the root's hash, which covers every intent
    /// beneath it, and the records.
    ///
    /// What the tree's calls resolve against is part of what was composed,
    /// so two trees differing only there are two identities.
    pub fn hash<H: Hasher>(
        &self,
        hasher: &H,
        encoding: &IntentEncoding,
        instances: &[u8],
        resources: &[u8],
    ) -> (r: ManifestHash)
        requires
            self.root.is_encoded_by(*encoding),
        ensures
            r.0 == hasher.digest(
                crate::intent::tree_domain(),
                seq![self.root.identity(*hasher, *encoding).0.0@, instances@, resources@],
            ),
    {
        let root = self.root.hash(hasher, encoding);
        let mut parts: Vec<Vec<u8>> = Vec::new();
        parts.push(copy_bytes(array_as_slice(&root.0.0)));
        parts.push(copy_bytes(instances));
        parts.push(copy_bytes(resources));
        assert(crate::hash::part_bytes(parts@) =~= seq![root.0.0@, instances@, resources@]);
        ManifestHash(hasher.hash("hyperscale-vm/intent-tree".as_bytes(), &parts))
    }
}

/// A tree read back off the bytes an envelope carries, held to its shape
/// before it is returned. `decoded` is what the bytes decode as, and
/// `flattened` whether that tree flattens.
///
/// Everything that walks a decoded tree runs over a tree inside its caps.
///
/// # Errors
///
/// [`TreeDecodeError`] for bytes that are not a tree, or a tree past its
/// shape.
pub fn decode_tree<D, E>(decoded: Result<IntentTree, D>, flattened: Result<(), E>) -> (r: Result<
    IntentTree,
    TreeDecodeError<D, E>,
>)
    ensures
        match decoded {
            Err(refusal) => r == Err::<IntentTree, TreeDecodeError<D, E>>(
                TreeDecodeError::Decode(refusal),
            ),
            Ok(tree) => match tree.shape_verdict(flattened) {
                Err(refusal) => r == Err::<IntentTree, TreeDecodeError<D, E>>(
                    TreeDecodeError::Shape(refusal),
                ),
                Ok(_) => r == Ok::<IntentTree, TreeDecodeError<D, E>>(tree),
            },
        },
        r matches Ok(tree) ==> tree.shape_verdict(flattened) is Ok,
{
    match decoded {
        Err(refusal) => Err(TreeDecodeError::Decode(refusal)),
        Ok(tree) => match tree.check_shape(flattened) {
            Err(refusal) => Err(TreeDecodeError::Shape(refusal)),
            Ok(_) => Ok(tree),
        },
    }
}

/// The place of the first hash of a run that an earlier one of it is too.
pub open spec fn first_repeat(hashes: Seq<IntentHash>) -> Option<int>
    decreases hashes.len(),
{
    if hashes.len() == 0 {
        None
    } else {
        match first_repeat(hashes.drop_last()) {
            Some(index) => Some(index),
            None => if hashes.drop_last().contains(hashes.last()) {
                Some(hashes.len() - 1)
            } else {
                None
            },
        }
    }
}

/// A repeat among the first of a run is the run's.
proof fn lemma_repeat_stands(hashes: Seq<IntentHash>, taken: int)
    requires
        0 <= taken <= hashes.len(),
        first_repeat(hashes.take(taken)) is Some,
    ensures
        first_repeat(hashes) == first_repeat(hashes.take(taken)),
    decreases hashes.len() - taken,
{
    if taken == hashes.len() {
        assert(hashes.take(taken) =~= hashes);
    } else {
        assert(hashes.take(taken + 1).drop_last() =~= hashes.take(taken));
        lemma_repeat_stands(hashes, taken + 1);
    }
}

/// The place of the first hash an earlier one is too.
fn find_repeat(hashes: &Vec<IntentHash>) -> (r: Option<usize>)
    ensures
        match r {
            Some(index) => first_repeat(hashes@) == Some(index as int) && index < hashes@.len(),
            None => first_repeat(hashes@) is None,
        },
{
    let mut index: usize = 0;
    assert(hashes@.take(0) =~= Seq::empty());
    while index < hashes.len()
        invariant
            index <= hashes.len(),
            first_repeat(hashes@.take(index as int)) is None,
        decreases hashes.len() - index,
    {
        proof {
            assert(hashes@.take(index as int + 1).drop_last() =~= hashes@.take(index as int));
            assert(hashes@.take(index as int + 1).last() == hashes@[index as int]);
        }
        let mut earlier: usize = 0;
        while earlier < index
            invariant
                earlier <= index < hashes.len(),
                first_repeat(hashes@.take(index as int)) is None,
                hashes@.take(index as int + 1).drop_last() == hashes@.take(index as int),
                hashes@.take(index as int + 1).last() == hashes@[index as int],
                forall|j: int| 0 <= j < earlier ==> hashes@[j] != hashes@[index as int],
            decreases index - earlier,
        {
            if hashes[earlier] == hashes[index] {
                proof {
                    assert(hashes@.take(index as int)[earlier as int] == hashes@[index as int]);
                    assert(hashes@.take(index as int).contains(hashes@[index as int]));
                    lemma_repeat_stands(hashes@, index as int + 1);
                }
                return Some(index);
            }
            earlier = earlier + 1;
        }
        proof {
            let before = hashes@.take(index as int);
            if before.contains(hashes@[index as int]) {
                let k = choose|k: int| 0 <= k < before.len() && before[k] == hashes@[index as int];
                assert(hashes@[k] == hashes@[index as int]);
            }
        }
        index = index + 1;
    }
    assert(hashes@.take(index as int) =~= hashes@);
    None
}

/// What an intent's header and accounts come to: when its nullifiers stop
/// being owed, and the nullifier key under each account it acts as.
#[derive(Debug, PartialEq, Eq)]
pub struct IntentTerms {
    /// When the nullifiers stop being owed.
    pub expiry_ms: u64,
    /// The nullifier key under each account, in the order the intent names
    /// them.
    pub keys: Vec<SubstateKey>,
}

/// Whether terms are a tree's: one for each intent, with one key for each
/// account it acts as.
pub open spec fn are_terms_of(intents: Seq<Intent>, terms: Seq<IntentTerms>) -> bool {
    &&& terms.len() == intents.len()
    &&& forall|i: int|
        0 <= i < intents.len() ==> (#[trigger] terms[i]).keys@.len() == intents[i].accounts@.len()
}

/// The nullifiers one intent writes: one for each account it acts as.
pub open spec fn nullifiers_of(intent: Intent, terms: IntentTerms) -> Seq<Nullifier> {
    Seq::new(
        intent.accounts@.len(),
        |i: int| Nullifier { account: intent.accounts@[i], key: terms.keys@[i] },
    )
}

/// Whether a record is of an intent: its identity, its nullifiers, and
/// when they stop being owed.
pub open spec fn is_record_of(
    record: IntentRecord,
    intent: Intent,
    identity: IntentHash,
    terms: IntentTerms,
) -> bool {
    &&& record.intent == identity
    &&& record.nullifiers@ == nullifiers_of(intent, terms)
    &&& record.expiry_ms == terms.expiry_ms
}

/// The accesses that make each of a run of intents once-only: one
/// exclusive creation for each nullifier.
pub open spec fn nullifier_effects(intents: Seq<Intent>, terms: Seq<IntentTerms>) -> Seq<
    Seq<Effect>,
> {
    Seq::new(
        intents.len(),
        |i: int|
            Seq::new(
                intents[i].accounts@.len(),
                |k: int|
                    Effect {
                        target: EffectTarget::Point(terms[i].keys@[k]),
                        mode: Mode::Write { moves: Moves::Both },
                    },
            ),
    )
}

/// The verdict on a tree, by the verdicts of everything that judges it, in
/// the order they are asked: its shape, the value depth of what it holds,
/// that no intent of it is another, its interfaces, and the intents
/// themselves.
pub open spec fn tree_verdict<E>(
    tree: IntentTree,
    flattened: Result<(), E>,
    identities: Seq<IntentHash>,
    resolved: Result<(), E>,
    admitted: Result<Admitted, E>,
) -> Result<(), TreeRefusal<E>> {
    match tree.shape_verdict(flattened) {
        Err(refusal) => Err(refusal),
        Ok(_) => match first_repeat(identities) {
            Some(index) => Err(TreeRefusal::DuplicateIntent { index: index as u32 }),
            None => match resolved {
                Err(refusal) => Err(TreeRefusal::Unresolved(refusal)),
                Ok(_) => match admitted {
                    Err(refusal) => Err(TreeRefusal::Refused(refusal)),
                    Ok(_) => Ok(()),
                },
            },
        },
    }
}

/// The record of one intent.
fn record_of(intent: &Intent, identity: IntentHash, terms: &IntentTerms) -> (r: IntentRecord)
    requires
        terms.keys@.len() == intent.accounts@.len(),
    ensures
        is_record_of(r, *intent, identity, *terms),
{
    let mut nullifiers: Vec<Nullifier> = Vec::new();
    let mut i: usize = 0;
    while i < intent.accounts.len()
        invariant
            i <= intent.accounts.len(),
            terms.keys@.len() == intent.accounts@.len(),
            nullifiers.len() == i,
            forall|j: int|
                0 <= j < i ==> #[trigger] nullifiers@[j] == nullifiers_of(*intent, *terms)[j],
        decreases intent.accounts.len() - i,
    {
        nullifiers.push(Nullifier { account: intent.accounts[i], key: terms.keys[i] });
        i = i + 1;
    }
    assert(nullifiers@ =~= nullifiers_of(*intent, *terms));
    IntentRecord { intent: identity, nullifiers, expiry_ms: terms.expiry_ms }
}

/// Admit a tree already inside its shape.
fn admit_shaped<E>(
    tree: &IntentTree,
    identities: &Vec<IntentHash>,
    resolved: Result<(), E>,
    terms: &Vec<IntentTerms>,
    admitted: Result<Admitted, E>,
) -> (r: Result<Admitted, TreeRefusal<E>>)
    requires
        !tree.is_deep(),
        identities@.len() == tree.all_intents().len() <= u32::MAX,
        are_terms_of(tree.all_intents(), terms@),
    ensures
        match (tree_verdict(*tree, Ok(()), identities@, resolved, admitted), r) {
            (Err(refusal), Err(given)) => given == refusal,
            (Ok(_), Ok(given)) => {
                &&& given.manifest == admitted->Ok_0.manifest
                &&& given.injected == admitted->Ok_0.injected
                &&& given.effects@ == admitted->Ok_0.effects@ + crate::runs::spliced(
                    nullifier_effects(tree.all_intents(), terms@),
                )
                &&& given.intents@.len() == tree.all_intents().len()
                &&& forall|i: int|
                    0 <= i < given.intents@.len() ==> is_record_of(
                        #[trigger] given.intents@[i],
                        tree.all_intents()[i],
                        identities@[i],
                        terms@[i],
                    )
            },
            _ => false,
        },
{
    match find_repeat(identities) {
        Some(index) => {
            return Err(TreeRefusal::DuplicateIntent { index: index as u32 });
        },
        None => {},
    }
    match resolved {
        Err(refusal) => {
            return Err(TreeRefusal::Unresolved(refusal));
        },
        Ok(_) => {},
    }
    let mut given = match admitted {
        Err(refusal) => {
            return Err(TreeRefusal::Refused(refusal));
        },
        Ok(given) => given,
    };
    let ghost start = given;
    let intents = tree.intents();
    let ghost all = tree.all_intents();
    let ghost folded = nullifier_effects(all, terms@);
    let mut records: Vec<IntentRecord> = Vec::new();
    let mut i: usize = 0;
    assert(folded.take(0) =~= Seq::empty());
    assert(start.effects@ + crate::runs::spliced(folded.take(0)) =~= start.effects@);
    while i < intents.len()
        invariant
            i <= intents.len(),
            intents@.unref() == all,
            identities@.len() == all.len(),
            are_terms_of(all, terms@),
            folded == nullifier_effects(all, terms@),
            given.manifest == start.manifest,
            given.injected == start.injected,
            given.effects@ == start.effects@ + crate::runs::spliced(folded.take(i as int)),
            records.len() == i,
            forall|j: int|
                0 <= j < i ==> is_record_of(
                    #[trigger] records@[j],
                    all[j],
                    identities@[j],
                    terms@[j],
                ),
        decreases intents.len() - i,
    {
        assert(intents@.unref()[i as int] == *intents@[i as int]);
        assert(terms@[i as int].keys@.len() == all[i as int].accounts@.len());
        let record = record_of(intents[i], identities[i], &terms[i]);
        let ghost before = given.effects@;
        let ghost own = folded[i as int];
        let mut k: usize = 0;
        assert(before + own.take(0) =~= before);
        while k < record.nullifiers.len()
            invariant
                k <= record.nullifiers.len(),
                is_record_of(record, all[i as int], identities@[i as int], terms@[i as int]),
                own == nullifier_effects(all, terms@)[i as int],
                i < all.len(),
                given.manifest == start.manifest,
                given.injected == start.injected,
                given.effects@ == before + own.take(k as int),
            decreases record.nullifiers.len() - k,
        {
            given.push_kernel_effect(
                Effect {
                    target: EffectTarget::Point(record.nullifiers[k].key),
                    mode: Mode::Write { moves: Moves::Both },
                },
            );
            assert(before + own.take(k as int + 1) =~= (before + own.take(k as int)).push(
                own[k as int],
            ));
            k = k + 1;
        }
        proof {
            assert(own.take(k as int) =~= own);
            crate::runs::lemma_one_more(folded, i as int);
            assert(start.effects@ + crate::runs::spliced(folded.take(i as int)) + own
                =~= start.effects@ + (crate::runs::spliced(folded.take(i as int)) + own));
        }
        records.push(record);
        i = i + 1;
    }
    assert(folded.take(i as int) =~= folded);
    Ok(given.with_intents(records))
}

/// Admit a tree.
///
/// Holds the tree to its shape, refuses one holding an intent twice,
/// derives the nullifier records, and folds one exclusive nullifier
/// creation for each account of each intent into the declaration. No
/// signature declared these, so they belong to no frame, but they are the
/// once-only execution guarantee.
///
/// `flattened` says whether the tree flattens, `resolved` whether its
/// interfaces do, and `admitted` is what its intents are admitted as.
/// `identities` are the intents' hashes and `terms` what their headers and
/// accounts come to, both in tree order. Two intents that hash alike would
/// derive one key for two edges.
///
/// # Errors
///
/// Any [`TreeRefusal`]; verdicts are deterministic and identical on every
/// node.
pub fn admit_tree<E>(
    tree: &IntentTree,
    flattened: Result<(), E>,
    identities: &Vec<IntentHash>,
    resolved: Result<(), E>,
    terms: &Vec<IntentTerms>,
    admitted: Result<Admitted, E>,
) -> (r: Result<Admitted, TreeRefusal<E>>)
    requires
        identities@.len() == tree.all_intents().len() <= u32::MAX,
        are_terms_of(tree.all_intents(), terms@),
    ensures
        match (tree_verdict(*tree, flattened, identities@, resolved, admitted), r) {
            (Err(refusal), Err(given)) => given == refusal,
            (Ok(_), Ok(given)) => {
                &&& given.manifest == admitted->Ok_0.manifest
                &&& given.injected == admitted->Ok_0.injected
                &&& given.effects@ == admitted->Ok_0.effects@ + crate::runs::spliced(
                    nullifier_effects(tree.all_intents(), terms@),
                )
                &&& given.intents@.len() == tree.all_intents().len()
                &&& forall|i: int|
                    0 <= i < given.intents@.len() ==> is_record_of(
                        #[trigger] given.intents@[i],
                        tree.all_intents()[i],
                        identities@[i],
                        terms@[i],
                    )
            },
            _ => false,
        },
{
    match tree.check_shape(flattened) {
        Err(refusal) => {
            return Err(refusal);
        },
        Ok(_) => {},
    }
    admit_shaped(tree, identities, resolved, terms, admitted)
}

/// [`admit_tree`] over the intents' own hashes: every record is under the
/// hash of the intent it is of, and a tree is refused as holding an intent
/// twice exactly where two of those hashes are one.
///
/// `encoding` is what the tree's intents encode as.
///
/// # Errors
///
/// Any [`TreeRefusal`]; verdicts are deterministic and identical on every
/// node.
pub fn admit_encoded_tree<H: Hasher, E>(
    tree: &IntentTree,
    hasher: &H,
    encoding: &IntentEncoding,
    flattened: Result<(), E>,
    resolved: Result<(), E>,
    terms: &Vec<IntentTerms>,
    admitted: Result<Admitted, E>,
) -> (r: Result<Admitted, TreeRefusal<E>>)
    requires
        tree.root.is_encoded_by(*encoding),
        tree.all_intents().len() <= u32::MAX,
        are_terms_of(tree.all_intents(), terms@),
    ensures
        match (
            tree_verdict(
                *tree,
                flattened,
                tree.root.all_identities(*hasher, *encoding),
                resolved,
                admitted,
            ),
            r,
        ) {
            (Err(refusal), Err(given)) => given == refusal,
            (Ok(_), Ok(given)) => {
                &&& given.manifest == admitted->Ok_0.manifest
                &&& given.injected == admitted->Ok_0.injected
                &&& given.effects@ == admitted->Ok_0.effects@ + crate::runs::spliced(
                    nullifier_effects(tree.all_intents(), terms@),
                )
                &&& given.intents@.len() == tree.all_intents().len()
                &&& forall|i: int|
                    0 <= i < given.intents@.len() ==> is_record_of(
                        #[trigger] given.intents@[i],
                        tree.all_intents()[i],
                        tree.root.all_identities(*hasher, *encoding)[i],
                        terms@[i],
                    )
            },
            _ => false,
        },
        r matches Ok(given) ==> forall|i: int|
            0 <= i < given.intents@.len() ==> (#[trigger] given.intents@[i]).intent
                == tree.root.all_identities(*hasher, *encoding)[i],
        r matches Err(TreeRefusal::DuplicateIntent { index }) ==> first_repeat(
            tree.root.all_identities(*hasher, *encoding),
        ) == Some(index as int),
{
    // Ahead of every hash, so the walks that hash run inside the caps.
    match tree.check_shape(flattened) {
        Err(refusal) => {
            return Err(refusal);
        },
        Ok(_) => {},
    }
    proof {
        law_a_hash_is_its_own_intents(tree.root, *hasher, *encoding);
        law_a_tree_holds_each_intent_once(tree.root.all_identities(*hasher, *encoding));
    }
    let identities = tree.hashes(hasher, encoding);
    admit_shaped(tree, &identities, resolved, terms, admitted)
}

/// A run holds no hash twice exactly where none is a repeat: a tree is
/// refused as holding an intent twice exactly where it does.
pub proof fn law_a_tree_holds_each_intent_once(hashes: Seq<IntentHash>)
    ensures
        first_repeat(hashes) is None == hashes.no_duplicates(),
        first_repeat(hashes) matches Some(index) ==> 0 <= index < hashes.len() && exists|
            earlier: int,
        |
            0 <= earlier < index && hashes[earlier] == hashes[index],
    decreases hashes.len(),
{
    if hashes.len() > 0 {
        let before = hashes.drop_last();
        law_a_tree_holds_each_intent_once(before);
        if hashes.no_duplicates() {
            assert(before.no_duplicates());
            if before.contains(hashes.last()) {
                let k = choose|k: int| 0 <= k < before.len() && before[k] == hashes.last();
                assert(hashes[k] == hashes[hashes.len() - 1]);
            }
        }
        match first_repeat(before) {
            Some(index) => {
                let earlier = choose|earlier: int|
                    0 <= earlier < index && before[earlier] == before[index];
                assert(hashes[earlier] == hashes[index]);
            },
            None => {
                if before.contains(hashes.last()) {
                    let k = choose|k: int| 0 <= k < before.len() && before[k] == hashes.last();
                    assert(hashes[k] == hashes[hashes.len() - 1]);
                } else {
                    assert forall|i: int, j: int|
                        0 <= i < hashes.len() && 0 <= j < hashes.len() && i != j implies hashes[i]
                        != hashes[j] by {
                        if i < before.len() && j < before.len() {
                            assert(before[i] != before[j]);
                        } else if i < before.len() {
                            assert(before[i] == hashes[i]);
                        } else {
                            assert(before[j] == hashes[j]);
                        }
                    }
                }
            },
        }
    }
}

/// Every account an intent acts as is one whose nullifier its admission
/// writes: for each intent of a tree and each account of it, the folded
/// accesses hold an exclusive creation of the key under that account.
pub proof fn law_every_account_is_nullified(
    intents: Seq<Intent>,
    terms: Seq<IntentTerms>,
    intent: int,
    account: int,
)
    requires
        are_terms_of(intents, terms),
        0 <= intent < intents.len(),
        0 <= account < intents[intent].accounts@.len(),
    ensures
        crate::runs::spliced(nullifier_effects(intents, terms)).contains(
            (Effect {
                target: EffectTarget::Point(
                    nullifiers_of(intents[intent], terms[intent])[account].key,
                ),
                mode: Mode::Write { moves: Moves::Both },
            }),
        ),
{
    let folded = nullifier_effects(intents, terms);
    let effect = Effect {
        target: EffectTarget::Point(terms[intent].keys@[account]),
        mode: Mode::Write { moves: Moves::Both },
    };
    assert(folded[intent][account] == effect);
    lemma_spliced_contains(folded, intent, effect);
}

/// What one of a run of runs holds, their splice holds.
proof fn lemma_spliced_contains<T>(parts: Seq<Seq<T>>, at: int, held: T)
    requires
        0 <= at < parts.len(),
        parts[at].contains(held),
    ensures
        crate::runs::spliced(parts).contains(held),
    decreases parts.len(),
{
    let before = crate::runs::spliced(parts.drop_last());
    let whole = crate::runs::spliced(parts);
    if at == parts.len() - 1 {
        let k = choose|k: int| 0 <= k < parts[at].len() && parts[at][k] == held;
        assert(whole[before.len() + k] == held);
    } else {
        lemma_spliced_contains(parts.drop_last(), at, held);
        let k = choose|k: int| 0 <= k < before.len() && before[k] == held;
        assert(whole[k] == held);
    }
}

/// A count is what its part says it is.
proof fn lemma_count_part(left: nat, right: nat)
    requires
        left <= u32::MAX,
        right <= u32::MAX,
        crate::intent::count_part(left) == crate::intent::count_part(right),
    ensures
        left == right,
{
    vstd::bytes::lemma_auto_spec_u32_to_from_le_bytes();
    assert(vstd::bytes::spec_u32_to_le_bytes(left as u32).len() == 4);
    assert(vstd::bytes::spec_u32_to_le_bytes(right as u32).len() == 4);
}

/// An intent's hash covers everything its signer signs: intents hashed
/// over the same parts have the same header, accounts and attesting
/// principals, graphs of one identity, the same sockets and gives, and
/// members of the same identities wired the same way. No section can be
/// read as another.
pub proof fn law_an_intent_hash_covers_its_sections(
    left: IntentEncoding,
    left_graph: crate::hash::Hash32,
    left_members: Seq<IntentHash>,
    right: IntentEncoding,
    right_graph: crate::hash::Hash32,
    right_members: Seq<IntentHash>,
)
    requires
        left.sockets@.len() <= u32::MAX,
        left.gives@.len() <= u32::MAX,
        left.members@.len() == left_members.len() <= u32::MAX,
        right.sockets@.len() <= u32::MAX,
        right.gives@.len() <= u32::MAX,
        right.members@.len() == right_members.len() <= u32::MAX,
        crate::intent::intent_parts(left, left_graph, left_members)
            == crate::intent::intent_parts(right, right_graph, right_members),
    ensures
        left.header@ == right.header@,
        left.accounts@ == right.accounts@,
        left.attested_by@ == right.attested_by@,
        left_graph == right_graph,
        crate::hash::part_bytes(left.sockets@) == crate::hash::part_bytes(right.sockets@),
        crate::hash::part_bytes(left.gives@) == crate::hash::part_bytes(right.gives@),
        left_members == right_members,
        forall|i: int|
            0 <= i < left.members@.len() ==> (#[trigger] left.members@[i]).wiring@
                == right.members@[i].wiring@,
{
    let here = crate::intent::intent_parts(left, left_graph, left_members);
    let there = crate::intent::intent_parts(right, right_graph, right_members);
    assert(here[0] == left.header@ && there[0] == right.header@);
    assert(here[1] == left.accounts@ && there[1] == right.accounts@);
    assert(here[2] == left.attested_by@ && there[2] == right.attested_by@);
    assert(here[3] == left_graph.0@ && there[3] == right_graph.0@);
    assert(left_graph.0 =~= right_graph.0);
    assert(here[4] == crate::intent::count_part(left.sockets@.len()));
    assert(there[4] == crate::intent::count_part(right.sockets@.len()));
    lemma_count_part(left.sockets@.len(), right.sockets@.len());
    let sockets = left.sockets@.len() as int;
    assert forall|i: int| 0 <= i < sockets implies crate::hash::part_bytes(left.sockets@)[i]
        == crate::hash::part_bytes(right.sockets@)[i] by {
        assert(here[5 + i] == crate::hash::part_bytes(left.sockets@)[i]);
        assert(there[5 + i] == crate::hash::part_bytes(right.sockets@)[i]);
    }
    assert(crate::hash::part_bytes(left.sockets@) =~= crate::hash::part_bytes(right.sockets@));
    assert(here[5 + sockets] == crate::intent::count_part(left.gives@.len()));
    assert(there[5 + sockets] == crate::intent::count_part(right.gives@.len()));
    lemma_count_part(left.gives@.len(), right.gives@.len());
    let gives = left.gives@.len() as int;
    assert forall|i: int| 0 <= i < gives implies crate::hash::part_bytes(left.gives@)[i]
        == crate::hash::part_bytes(right.gives@)[i] by {
        assert(here[6 + sockets + i] == crate::hash::part_bytes(left.gives@)[i]);
        assert(there[6 + sockets + i] == crate::hash::part_bytes(right.gives@)[i]);
    }
    assert(crate::hash::part_bytes(left.gives@) =~= crate::hash::part_bytes(right.gives@));
    assert(here[6 + sockets + gives] == crate::intent::count_part(left_members.len()));
    assert(there[6 + sockets + gives] == crate::intent::count_part(right_members.len()));
    lemma_count_part(left_members.len(), right_members.len());
    let one = crate::intent::member_parts(left_members, left.members@);
    let two = crate::intent::member_parts(right_members, right.members@);
    assert forall|i: int| 0 <= i < 2 * left_members.len() implies one[i] == two[i] by {
        assert(here[7 + sockets + gives + i] == one[i]);
        assert(there[7 + sockets + gives + i] == two[i]);
    }
    assert forall|i: int| 0 <= i < left_members.len() implies left_members[i]
        == right_members[i] by {
        assert(one[2 * i] == left_members[i].0.0@);
        assert(two[2 * i] == right_members[i].0.0@);
        assert(left_members[i].0.0 =~= right_members[i].0.0);
    }
    assert(left_members =~= right_members);
    assert forall|i: int| 0 <= i < left.members@.len() implies (
    #[trigger] left.members@[i]).wiring@ == right.members@[i].wiring@ by {
        assert(one[2 * i + 1] == left.members@[i].wiring@);
        assert(two[2 * i + 1] == right.members@[i].wiring@);
    }
}

/// Every hash of a tree is its own intent's: in tree order, the hash at a
/// place is the identity of the intent at that place, over that intent's
/// encoding.
pub proof fn law_a_hash_is_its_own_intents<H: Hasher>(
    intent: Intent,
    hasher: H,
    encoding: IntentEncoding,
)
    ensures
        intent.all_encodings(encoding).len() == intent.all_intents().len(),
        intent.all_identities(hasher, encoding).len() == intent.all_intents().len(),
        forall|i: int|
            0 <= i < intent.all_intents().len() ==> #[trigger] intent.all_identities(
                hasher,
                encoding,
            )[i] == intent.all_intents()[i].identity(hasher, intent.all_encodings(encoding)[i]),
    decreases intent,
{
    let members = intent.members@;
    let hashes = intent.identities_beneath(hasher, encoding);
    let encodings = intent.encodings_beneath(encoding);
    assert forall|i: int| 0 <= i < members.len() implies hashed_alike(
        hasher,
        members[i].signed.intent.all_intents(),
        #[trigger] hashes[i],
        encodings[i],
    ) by {
        assert(decreases_to!(intent.members@ => intent.members@[i]));
        law_a_hash_is_its_own_intents(
            members[i].signed.intent,
            hasher,
            encoding.members@[i].intent,
        );
    }
    lemma_hashed_alike(hasher, members, hashes, encodings);
    let below = Seq::new(intent.all_signed().len(), |i: int| intent.all_signed()[i].intent);
    let identities = intent.all_identities(hasher, encoding);
    let encoded = intent.all_encodings(encoding);
    assert forall|i: int| 0 <= i < intent.all_intents().len() implies #[trigger] identities[i]
        == intent.all_intents()[i].identity(hasher, encoded[i]) by {
        if i > 0 {
            assert(identities[i] == crate::runs::spliced(hashes)[i - 1]);
            assert(encoded[i] == crate::runs::spliced(encodings)[i - 1]);
            assert(intent.all_intents()[i] == below[i - 1]);
        }
    }
}

/// Whether hashes are of a run of intents, each over its encoding.
spec fn hashed_alike<H: Hasher>(
    hasher: H,
    intents: Seq<Intent>,
    hashes: Seq<IntentHash>,
    encodings: Seq<IntentEncoding>,
) -> bool {
    &&& hashes.len() == intents.len()
    &&& encodings.len() == intents.len()
    &&& forall|i: int|
        0 <= i < intents.len() ==> #[trigger] hashes[i] == intents[i].identity(
            hasher,
            encodings[i],
        )
}

/// What holds of the hashes beneath each member holds of all of them.
proof fn lemma_hashed_alike<H: Hasher>(
    hasher: H,
    members: Seq<Member>,
    hashes: Seq<Seq<IntentHash>>,
    encodings: Seq<Seq<IntentEncoding>>,
)
    requires
        hashes.len() == members.len(),
        encodings.len() == members.len(),
        forall|i: int|
            0 <= i < members.len() ==> hashed_alike(
                hasher,
                members[i].signed.intent.all_intents(),
                #[trigger] hashes[i],
                encodings[i],
            ),
    ensures
        hashed_alike(
            hasher,
            Seq::new(
                Intent::signed_of(members).len(),
                |i: int| Intent::signed_of(members)[i].intent,
            ),
            crate::runs::spliced(hashes),
            crate::runs::spliced(encodings),
        ),
    decreases members.len(),
{
    if members.len() > 0 {
        let last = members.len() - 1;
        let before = members.drop_last();
        assert forall|i: int| 0 <= i < before.len() implies hashed_alike(
            hasher,
            before[i].signed.intent.all_intents(),
            #[trigger] hashes.drop_last()[i],
            encodings.drop_last()[i],
        ) by {
            assert(hashes[i] == hashes.drop_last()[i]);
        }
        lemma_hashed_alike(hasher, before, hashes.drop_last(), encodings.drop_last());
        assert(hashed_alike(
            hasher,
            members[last].signed.intent.all_intents(),
            hashes[last],
            encodings[last],
        ));
        let signed = Intent::signed_of(members);
        let intents = Seq::new(signed.len(), |i: int| signed[i].intent);
        let earlier = Intent::signed_of(before);
        let own = members.last().signed.intent;
        let whole = crate::runs::spliced(hashes);
        let encoded = crate::runs::spliced(encodings);
        assert forall|i: int| 0 <= i < intents.len() implies #[trigger] whole[i]
            == intents[i].identity(hasher, encoded[i]) by {
            let k = i - earlier.len();
            if k < 0 {
                assert(signed[i] == earlier[i]);
                assert(whole[i] == crate::runs::spliced(hashes.drop_last())[i]);
                assert(encoded[i] == crate::runs::spliced(encodings.drop_last())[i]);
            } else {
                assert(whole[i] == hashes[last][k]);
                assert(encoded[i] == encodings[last][k]);
                assert(intents[i] == own.all_intents()[k]);
            }
        }
    }
}

} // verus!
