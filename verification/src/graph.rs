//! The manifest as signed: a typed dataflow graph and its identity.
//!
//! Nodes are method invocations typed against the target's declared
//! parameters; edges are typed value flows with exactly one producer and
//! one consumer; constraints are declarative edge annotations.
use vstd::prelude::*;

use crate::address::{CallTarget, PrincipalAddr, ResourceAddr};
use crate::hash::{Hash32, Hasher};
use crate::manifest::ManifestHash;
use crate::table::{bytes_precede, Table, TableKey};
use crate::term::{copy_bytes, same_bytes};
use crate::types::Value;
use vstd::array::array_as_slice;

verus! {

/// The bound on identities one call may present as evidence.
pub const MAX_EVIDENCE_PER_NODE: usize = 8;

/// One produced value edge: the `output`-th edge of the `producer` node.
#[derive(Clone, Copy, Debug, PartialEq, Eq, Structural)]
pub struct EdgeRef {
    /// The producing node's index.
    pub producer: u32,
    /// The output slot on the producer.
    pub output: u32,
}

/// One value a member offers: the `give`-th entry of the gives of the
/// composing intent's `member`-th member.
///
/// The one way a composer names anything inside a member. A member's
/// interface is what its signer published, so what the composer reaches
/// is a position in it and never a node of the member's graph.
#[derive(Clone, Copy, Debug, PartialEq, Eq, Structural)]
pub struct GiveRef {
    /// The member, by its position in the composing intent's members.
    pub member: u32,
    /// The give, by its position in that member's gives.
    pub give: u32,
}

/// A declarative edge annotation, checked at admission where static and at
/// execution otherwise.
#[derive(Clone, Copy, Debug, PartialEq, Eq)]
pub enum Constraint {
    /// The edge must carry at least this amount at execution.
    MinAmount(u128),
    /// The edge must carry at most this amount at execution.
    MaxAmount(u128),
    /// The edge's static resource type must be exactly this.
    ResourceIs(ResourceAddr),
}

/// Where a value edge an intent consumes, wires or gives comes from: one
/// of its own graph's outputs, a give of one of its members, or one of its
/// own sockets.
#[derive(Clone, Copy, Debug, PartialEq, Eq, Structural)]
pub enum ValueRef {
    /// An output of the intent's own graph.
    Edge(EdgeRef),
    /// A give of one of the intent's members: value that flows down the
    /// tree, taken from below.
    Give(GiveRef),
    /// One of the intent's own sockets: value that flows up the tree,
    /// filled from above. Only meaningful inside a tree.
    Socket(u32),
}

impl ValueRef {
    /// The socket this names, where it names one.
    pub open spec fn names_socket(self) -> Option<u32> {
        match self {
            ValueRef::Socket(socket) => Some(socket),
            _ => None,
        }
    }

    /// The give this names, where it names one.
    pub open spec fn names_give(self) -> Option<GiveRef> {
        match self {
            ValueRef::Give(give) => Some(give),
            _ => None,
        }
    }

    /// The socket this names, where it names one.
    pub fn socket(self) -> (r: Option<u32>)
        ensures
            r == self.names_socket(),
    {
        match self {
            ValueRef::Socket(socket) => Some(socket),
            _ => None,
        }
    }

    /// The give this names, where it names one.
    pub fn give(self) -> (r: Option<GiveRef>)
        ensures
            r == self.names_give(),
    {
        match self {
            ValueRef::Give(give) => Some(give),
            _ => None,
        }
    }
}

/// One bound argument of a graph node.
#[derive(Debug, PartialEq, Eq)]
pub enum GraphArg {
    /// A literal from the signed envelope.
    Literal(Value),
    /// Consumption of a value edge, with the consumer's constraints on it.
    Value {
        /// Where the edge comes from.
        source: ValueRef,
        /// The consumer's declared constraints on it.
        constraints: Vec<Constraint>,
    },
}

impl GraphArg {
    /// The edge this argument consumes, where it consumes one.
    pub open spec fn consumed(self) -> Option<ValueRef> {
        match self {
            GraphArg::Value { source, .. } => Some(source),
            GraphArg::Literal(_) => None,
        }
    }

    /// The socket this argument names, where it names one.
    pub open spec fn names_socket(self) -> Option<u32> {
        match self {
            GraphArg::Value { source, .. } => source.names_socket(),
            GraphArg::Literal(_) => None,
        }
    }

    /// The give this argument names, where it names one.
    pub open spec fn names_give(self) -> Option<GiveRef> {
        match self {
            GraphArg::Value { source, .. } => source.names_give(),
            GraphArg::Literal(_) => None,
        }
    }

    /// Consumption of `edge`, an output of the intent's own graph.
    pub fn edge(edge: EdgeRef, constraints: Vec<Constraint>) -> (r: Self)
        ensures
            r == (GraphArg::Value { source: ValueRef::Edge(edge), constraints }),
    {
        GraphArg::Value { source: ValueRef::Edge(edge), constraints }
    }

    /// Consumption of `give`, a member's.
    pub fn give(give: GiveRef, constraints: Vec<Constraint>) -> (r: Self)
        ensures
            r == (GraphArg::Value { source: ValueRef::Give(give), constraints }),
    {
        GraphArg::Value { source: ValueRef::Give(give), constraints }
    }

    /// Consumption of the edge filling the intent's `socket`-th socket,
    /// under the socket's own constraints alone.
    pub fn socket(socket: u32) -> (r: Self)
        ensures
            r matches GraphArg::Value { source, constraints } && source == ValueRef::Socket(socket)
                && constraints@.len() == 0,
    {
        GraphArg::Value { source: ValueRef::Socket(socket), constraints: Vec::new() }
    }

    /// The edge this argument consumes, where it consumes one.
    pub fn source(&self) -> (r: Option<ValueRef>)
        ensures
            r == self.consumed(),
    {
        match self {
            GraphArg::Value { source, .. } => Some(*source),
            GraphArg::Literal(_) => None,
        }
    }
}

/// Where a presented proof comes from.
///
/// Evidence is presented, never ambient: a node names what it hands its
/// callee, so a call into one package cannot carry authority the author
/// meant for another.
#[derive(Clone, Copy, Debug, PartialEq, Eq)]
pub enum ClaimRef {
    /// The claim of an account the enclosing intent acts as.
    Account(PrincipalAddr),
    /// The proof an earlier node of the same intent proved, carrying the
    /// identity of that node's target.
    Node(u32),
    /// The proof filling this intent's socket at this place: the one way
    /// authority crosses an intent boundary.
    Socket(u32),
}

impl ClaimRef {
    /// The socket this names, where it names one.
    pub open spec fn names_socket(self) -> Option<u32> {
        match self {
            ClaimRef::Socket(socket) => Some(socket),
            _ => None,
        }
    }
}

impl TableKey for ClaimRef {
    open spec fn ordinal(self) -> Seq<int> {
        match self {
            ClaimRef::Account(account) => seq![0int] + crate::table::byte_ordinal(account.body@),
            ClaimRef::Node(node) => seq![1int, node as int],
            ClaimRef::Socket(socket) => seq![2int, socket as int],
        }
    }

    fn precedes(&self, other: &Self) -> (r: bool) {
        proof {
            reveal_with_fuel(crate::table::before, 3);
            assert(self.ordinal()[0] == (match self {
                ClaimRef::Account(_) => 0int,
                ClaimRef::Node(_) => 1int,
                ClaimRef::Socket(_) => 2int,
            }));
            assert(other.ordinal()[0] == (match other {
                ClaimRef::Account(_) => 0int,
                ClaimRef::Node(_) => 1int,
                ClaimRef::Socket(_) => 2int,
            }));
        }
        match (self, other) {
            (ClaimRef::Account(left), ClaimRef::Account(right)) => {
                proof {
                    assert(self.ordinal().skip(1) =~= crate::table::byte_ordinal(left.body@));
                    assert(other.ordinal().skip(1) =~= crate::table::byte_ordinal(right.body@));
                }
                bytes_precede(array_as_slice(&left.body), array_as_slice(&right.body))
            },
            (ClaimRef::Account(_), _) => true,
            (ClaimRef::Node(_), ClaimRef::Account(_)) => false,
            (ClaimRef::Node(left), ClaimRef::Node(right)) => *left < *right,
            (ClaimRef::Node(_), ClaimRef::Socket(_)) => true,
            (ClaimRef::Socket(left), ClaimRef::Socket(right)) => *left < *right,
            (ClaimRef::Socket(_), _) => false,
        }
    }

    fn coincides(&self, other: &Self) -> (r: bool) {
        let ghost here = self.ordinal();
        let ghost there = other.ordinal();
        match (self, other) {
            (ClaimRef::Account(left), ClaimRef::Account(right)) => {
                proof {
                    crate::table::lemma_byte_ordinal(left.body@, right.body@);
                    assert(here.skip(1) =~= crate::table::byte_ordinal(left.body@));
                    assert(there.skip(1) =~= crate::table::byte_ordinal(right.body@));
                }
                same_bytes(array_as_slice(&left.body), array_as_slice(&right.body))
            },
            (ClaimRef::Node(left), ClaimRef::Node(right)) => {
                assert(here[1] == *left as int);
                assert(there[1] == *right as int);
                *left == *right
            },
            (ClaimRef::Socket(left), ClaimRef::Socket(right)) => {
                assert(here[1] == *left as int);
                assert(there[1] == *right as int);
                *left == *right
            },
            _ => {
                assert(here[0] != there[0]);
                false
            },
        }
    }
}

/// The evidence a call presents: a set, listed in order. Presenting one
/// identity twice says nothing.
pub type Evidence = Table<ClaimRef, ()>;

/// A method invocation node.
#[derive(Debug, PartialEq, Eq)]
pub struct GraphNode {
    /// The target instance. Its class is what makes it invocable: a
    /// package is code and a resource is a supply, so neither can be
    /// written here at all.
    pub target: CallTarget,
    /// The method to invoke.
    pub method: String,
    /// The bound arguments, in parameter order.
    pub args: Vec<GraphArg>,
    /// The evidence this call presents to its callee. Empty for a method
    /// that requires no authority.
    pub evidence: Evidence,
}

/// The sockets arguments name, in order.
pub open spec fn argument_sockets(args: Seq<GraphArg>) -> Seq<Seq<u32>> {
    Seq::new(args.len(), |i: int| crate::runs::at_most_one(args[i].names_socket()))
}

/// The gives arguments name, in order.
pub open spec fn argument_gives(args: Seq<GraphArg>) -> Seq<Seq<GiveRef>> {
    Seq::new(args.len(), |i: int| crate::runs::at_most_one(args[i].names_give()))
}

/// The sockets evidence names, in order.
pub open spec fn evidence_sockets(evidence: Seq<(ClaimRef, ())>) -> Seq<Seq<u32>> {
    Seq::new(evidence.len(), |i: int| crate::runs::at_most_one(evidence[i].0.names_socket()))
}

impl GraphNode {
    /// Every socket this node names, whichever channel names it: its
    /// arguments' first, then its evidence's.
    pub open spec fn all_sockets(self) -> Seq<u32> {
        crate::runs::spliced(argument_sockets(self.args@)) + crate::runs::spliced(
            evidence_sockets(self.evidence.listed()),
        )
    }

    /// Every give this node consumes.
    pub open spec fn all_gives(self) -> Seq<GiveRef> {
        crate::runs::spliced(argument_gives(self.args@))
    }

    /// Every socket this node names, whichever channel names it.
    ///
    /// A socket makes the node depend on whatever the composition bound it
    /// to. Ordering and use counting both ask it, so it is asked in one
    /// place.
    pub fn sockets(&self) -> (r: Vec<u32>)
        ensures
            r@ == self.all_sockets(),
    {
        let mut r: Vec<u32> = Vec::new();
        let ghost named = argument_sockets(self.args@);
        let mut i: usize = 0;
        assert(named.take(0) =~= Seq::empty());
        while i < self.args.len()
            invariant
                i <= self.args.len(),
                named == argument_sockets(self.args@),
                r@ == crate::runs::spliced(named.take(i as int)),
            decreases self.args.len() - i,
        {
            let ghost before = r@;
            match self.args[i].source() {
                Some(source) => match source.socket() {
                    Some(socket) => {
                        r.push(socket);
                    },
                    None => {},
                },
                None => {},
            }
            proof {
                crate::runs::lemma_one_more(named, i as int);
                assert(r@ =~= before + named[i as int]);
            }
            i = i + 1;
        }
        assert(named.take(i as int) =~= named);
        let ghost taken = r@;
        let ghost shown = evidence_sockets(self.evidence.listed());
        let mut i: usize = 0;
        assert(shown.take(0) =~= Seq::empty());
        assert(r@ =~= taken + crate::runs::spliced(shown.take(0)));
        while i < self.evidence.len()
            invariant
                i <= self.evidence.listed().len(),
                shown == evidence_sockets(self.evidence.listed()),
                r@ == taken + crate::runs::spliced(shown.take(i as int)),
            decreases self.evidence.listed().len() - i,
        {
            let ghost before = r@;
            match self.evidence.key(i) {
                ClaimRef::Socket(socket) => {
                    r.push(*socket);
                },
                _ => {},
            }
            proof {
                crate::runs::lemma_one_more(shown, i as int);
                assert(r@ =~= before + shown[i as int]);
                assert(taken + crate::runs::spliced(shown.take(i as int)) + shown[i as int]
                    =~= taken + (crate::runs::spliced(shown.take(i as int)) + shown[i as int]));
            }
            i = i + 1;
        }
        assert(shown.take(i as int) =~= shown);
        r
    }

    /// Every give this node consumes.
    ///
    /// The argument channel alone: authority never travels upward, so no
    /// evidence names a member.
    pub fn gives(&self) -> (r: Vec<GiveRef>)
        ensures
            r@ == self.all_gives(),
    {
        let mut r: Vec<GiveRef> = Vec::new();
        let ghost named = argument_gives(self.args@);
        let mut i: usize = 0;
        assert(named.take(0) =~= Seq::empty());
        while i < self.args.len()
            invariant
                i <= self.args.len(),
                named == argument_gives(self.args@),
                r@ == crate::runs::spliced(named.take(i as int)),
            decreases self.args.len() - i,
        {
            let ghost before = r@;
            match self.args[i].source() {
                Some(source) => match source.give() {
                    Some(give) => {
                        r.push(give);
                    },
                    None => {},
                },
                None => {},
            }
            proof {
                crate::runs::lemma_one_more(named, i as int);
                assert(r@ =~= before + named[i as int]);
            }
            i = i + 1;
        }
        assert(named.take(i as int) =~= named);
        r
    }

    /// A call presenting no evidence: what a method admitting anyone
    /// takes.
    pub fn new(target: CallTarget, method: &str, args: Vec<GraphArg>) -> (r: Self)
        ensures
            r.target == target,
            r.method@ == method@,
            r.args == args,
            r.evidence.listed().len() == 0,
    {
        GraphNode { target, method: method.to_owned(), args, evidence: Table::new() }
    }

    /// A call presenting the one proof `reference` names.
    fn presenting(target: CallTarget, method: &str, args: Vec<GraphArg>, reference: ClaimRef) -> (r:
        Self)
        ensures
            r.target == target,
            r.method@ == method@,
            r.args == args,
            r.evidence.listed() == seq![(reference, ())],
    {
        let mut node = GraphNode::new(target, method, args);
        node.evidence.push_first(reference, ());
        node
    }

    /// A call presenting `account`, one the enclosing intent acts as: what
    /// an authorizing method takes.
    pub fn signed(
        account: PrincipalAddr,
        target: CallTarget,
        method: &str,
        args: Vec<GraphArg>,
    ) -> (r: Self)
        ensures
            r.target == target,
            r.method@ == method@,
            r.args == args,
            r.evidence.listed() == seq![(ClaimRef::Account(account), ())],
    {
        GraphNode::presenting(target, method, args, ClaimRef::Account(account))
    }

    /// A call presenting the proof drawn from the intent's node
    /// `producer`: what a guarded method takes.
    pub fn bearing(target: CallTarget, method: &str, args: Vec<GraphArg>, producer: u32) -> (r:
        Self)
        ensures
            r.target == target,
            r.method@ == method@,
            r.args == args,
            r.evidence.listed() == seq![(ClaimRef::Node(producer), ())],
    {
        GraphNode::presenting(target, method, args, ClaimRef::Node(producer))
    }
}

/// The typed dataflow graph a transaction signs.
#[derive(Debug, PartialEq, Eq)]
pub struct ManifestGraph {
    /// Invocation nodes; every edge's producer index is smaller than its
    /// consumer's.
    pub nodes: Vec<GraphNode>,
}

impl Default for ManifestGraph {
    fn default() -> (r: ManifestGraph)
        ensures
            r.nodes@.len() == 0,
    {
        ManifestGraph { nodes: Vec::new() }
    }
}

/// What one node's arguments and evidence encode as, on the wire.
#[derive(Debug, PartialEq, Eq)]
pub struct NodeEncoding {
    /// Each argument's canonical encoding, in order.
    pub args: Vec<Vec<u8>>,
    /// The evidence's canonical encoding.
    pub evidence: Vec<u8>,
}

/// The domain a node is hashed under.
pub open spec fn node_domain() -> Seq<u8> {
    vstd::utf8::encode_utf8("hyperscale-vm/graph-node"@)
}

/// The domain a graph is hashed under.
pub open spec fn graph_domain() -> Seq<u8> {
    vstd::utf8::encode_utf8("hyperscale-vm/graph"@)
}

/// What a node is hashed over: its target, its method, one part for each
/// argument, and its evidence.
pub open spec fn node_parts(node: GraphNode, encoding: NodeEncoding) -> Seq<Seq<u8>> {
    seq![node.target.as_address().bytes(), vstd::utf8::encode_utf8(node.method@)]
        + crate::hash::part_bytes(encoding.args@) + seq![encoding.evidence@]
}

/// The bytes of a digest.
pub open spec fn digest_bytes(digest: Hash32) -> Seq<u8> {
    digest.0@
}

/// What a graph is hashed over: each node's digest, in order.
pub open spec fn graph_parts<H: Hasher>(
    hasher: H,
    nodes: Seq<GraphNode>,
    encodings: Seq<NodeEncoding>,
) -> Seq<Seq<u8>> {
    Seq::new(
        nodes.len(),
        |i: int| digest_bytes(hasher.digest(node_domain(), node_parts(nodes[i], encodings[i]))),
    )
}

/// Whether encodings are of a graph's nodes: one for each, with one
/// encoding for each of its arguments.
pub open spec fn is_encoding_of(nodes: Seq<GraphNode>, encodings: Seq<NodeEncoding>) -> bool {
    &&& encodings.len() == nodes.len()
    &&& forall|i: int|
        0 <= i < nodes.len() ==> (#[trigger] encodings[i]).args@.len() == nodes[i].args@.len()
}

impl ManifestGraph {
    /// The graph's identity: the evaluation root for output-type
    /// expressions at admission.
    pub open spec fn identity<H: Hasher>(self, hasher: H, encodings: Seq<NodeEncoding>) -> Hash32 {
        hasher.digest(graph_domain(), graph_parts(hasher, self.nodes@, encodings))
    }

    /// The graph's identity through the hashing seam.
    ///
    /// Each node hashes as its target, its method, one part for each
    /// argument's canonical encoding, and its evidence's: the hashed form
    /// and the wire form are one byte string. Evidence is signed content,
    /// since a relayer that could add or drop a presentation would be
    /// choosing what authority a call carries.
    pub fn hash<H: Hasher>(&self, hasher: &H, encodings: &Vec<NodeEncoding>) -> (r: ManifestHash)
        requires
            is_encoding_of(self.nodes@, encodings@),
        ensures
            r.0 == self.identity(*hasher, encodings@),
    {
        let ghost all = graph_parts(*hasher, self.nodes@, encodings@);
        let mut digests: Vec<Vec<u8>> = Vec::new();
        let mut i: usize = 0;
        while i < self.nodes.len()
            invariant
                i <= self.nodes.len(),
                is_encoding_of(self.nodes@, encodings@),
                digests.len() == i,
                all == graph_parts(*hasher, self.nodes@, encodings@),
                forall|j: int| 0 <= j < i ==> (#[trigger] digests@[j])@ == all[j],
            decreases self.nodes.len() - i,
        {
            let node = &self.nodes[i];
            let encoding = &encodings[i];
            let ghost parted = node_parts(*node, *encoding);
            let mut parts: Vec<Vec<u8>> = Vec::new();
            parts.push(node.target.address().to_bytes());
            parts.push(copy_bytes(node.method.as_str().as_bytes()));
            let mut k: usize = 0;
            while k < encoding.args.len()
                invariant
                    k <= encoding.args.len(),
                    parts.len() == 2 + k,
                    parted == node_parts(*node, *encoding),
                    forall|j: int| 0 <= j < 2 + k ==> (#[trigger] parts@[j])@ == parted[j],
                decreases encoding.args.len() - k,
            {
                parts.push(copy_bytes(encoding.args[k].as_slice()));
                k = k + 1;
            }
            parts.push(copy_bytes(encoding.evidence.as_slice()));
            assert(crate::hash::part_bytes(parts@) =~= parted);
            let digest = hasher.hash("hyperscale-vm/graph-node".as_bytes(), &parts);
            digests.push(copy_bytes(array_as_slice(&digest.0)));
            i = i + 1;
        }
        assert(crate::hash::part_bytes(digests@) =~= all);
        ManifestHash(hasher.hash("hyperscale-vm/graph".as_bytes(), &digests))
    }
}

/// A node's hash covers the whole of it: nodes hashed over the same parts
/// have the same target and method, and their arguments and evidence the
/// same encodings.
pub proof fn law_a_node_hash_covers_its_call(
    left: GraphNode,
    left_encoding: NodeEncoding,
    right: GraphNode,
    right_encoding: NodeEncoding,
)
    requires
        node_parts(left, left_encoding) == node_parts(right, right_encoding),
    ensures
        left.target.as_address() == right.target.as_address(),
        left.method@ == right.method@,
        crate::hash::part_bytes(left_encoding.args@) == crate::hash::part_bytes(
            right_encoding.args@,
        ),
        left_encoding.evidence@ == right_encoding.evidence@,
{
    let here = node_parts(left, left_encoding);
    let there = node_parts(right, right_encoding);
    let one = left.target.as_address();
    let two = right.target.as_address();
    assert(here[0] == one.bytes());
    assert(there[0] == two.bytes());
    assert(one.bytes().take(31) =~= one.body@);
    assert(two.bytes().take(31) =~= two.body@);
    assert(one.body =~= two.body);
    assert(one.bytes()[31] == one.class.number());
    assert(two.bytes()[31] == two.class.number());
    assert(here[1] == vstd::utf8::encode_utf8(left.method@));
    assert(there[1] == vstd::utf8::encode_utf8(right.method@));
    vstd::utf8::encode_utf8_decode_utf8(left.method@);
    vstd::utf8::encode_utf8_decode_utf8(right.method@);
    let args = crate::hash::part_bytes(left_encoding.args@);
    let others = crate::hash::part_bytes(right_encoding.args@);
    assert(here.len() == args.len() + 3);
    assert(there.len() == others.len() + 3);
    assert forall|i: int| 0 <= i < args.len() implies args[i] == others[i] by {
        assert(here[i + 2] == args[i]);
        assert(there[i + 2] == others[i]);
    }
    assert(args =~= others);
    assert(here.last() == left_encoding.evidence@);
    assert(there.last() == right_encoding.evidence@);
}

} // verus!
