//! A composition as its author signs it.
use vm_effects::address::{CallTarget, ComponentAddr, PrincipalAddr};
use vm_effects::graph::{
    ClaimRef, Constraint, EdgeRef, GiveRef, GraphArg, GraphNode, ManifestGraph, NodeEncoding,
    ValueRef,
};
use vm_effects::hash::{Hash32, Hasher};
use vm_effects::manifest::ManifestHash;
use vm_effects::types::Value;

/// A digest that mixes the domain, every part, and every part's length.
struct TestHasher;

impl Hasher for TestHasher {
    fn hash(&self, domain: &[u8], parts: &Vec<Vec<u8>>) -> Hash32 {
        let mut state = [0u8; 32];
        let mut at = 0usize;
        let mut mix = |byte: u8| {
            let carried = state[at];
            at = (at + 1) % 32;
            state[at] = state[at]
                .wrapping_mul(31)
                .wrapping_add(byte)
                .wrapping_add(carried.rotate_left(3))
                .wrapping_add(1);
        };
        for byte in domain {
            mix(*byte);
        }
        for part in parts {
            for byte in (part.len() as u64).to_le_bytes() {
                mix(byte);
            }
            for byte in part {
                mix(*byte);
            }
        }
        Hash32(state)
    }
}

fn component(seed: u8) -> CallTarget {
    CallTarget::Component(ComponentAddr::new([seed; 31]))
}

fn encodings(graph: &ManifestGraph) -> Vec<NodeEncoding> {
    graph
        .nodes
        .iter()
        .map(|node| NodeEncoding {
            args: node
                .args
                .iter()
                .map(|arg| format!("{arg:?}").into_bytes())
                .collect(),
            evidence: format!("{:?}", node.evidence).into_bytes(),
        })
        .collect()
}

fn h(graph: &ManifestGraph) -> ManifestHash {
    graph.hash(&TestHasher, &encodings(graph))
}

fn base() -> ManifestGraph {
    ManifestGraph {
        nodes: vec![
            GraphNode::new(
                component(1),
                "withdraw",
                vec![GraphArg::Literal(Value::U128(5))],
            ),
            GraphNode::new(
                component(2),
                "deposit",
                vec![GraphArg::edge(
                    EdgeRef {
                        producer: 0,
                        output: 0,
                    },
                    vec![Constraint::MinAmount(1)],
                )],
            ),
        ],
    }
}

#[test]
fn the_graph_hash_covers_edges_and_constraints() {
    let mut reconstrained = base();
    reconstrained.nodes[1].args[0] = GraphArg::edge(
        EdgeRef {
            producer: 0,
            output: 0,
        },
        vec![Constraint::MinAmount(2)],
    );
    assert_eq!(h(&base()), h(&base()));
    assert_ne!(h(&base()), h(&reconstrained));
}

#[test]
fn the_graph_hash_covers_targets_methods_and_evidence() {
    let mut retargeted = base();
    retargeted.nodes[0].target = component(3);
    let mut renamed = base();
    renamed.nodes[0].method = "withdraw_all".to_string();
    let mut presented = base();
    presented.nodes[0] = GraphNode::bearing(
        component(1),
        "withdraw",
        vec![GraphArg::Literal(Value::U128(5))],
        0,
    );
    let mut shorter = base();
    shorter.nodes.pop();
    for other in [retargeted, renamed, presented, shorter] {
        assert_ne!(h(&base()), h(&other));
    }
}

/// The digest is over the domain and the framed parts, node by node.
#[test]
fn a_graph_hashes_its_nodes_digests() {
    let graph = ManifestGraph {
        nodes: vec![GraphNode::new(component(1), "m", vec![])],
    };
    let encoding = &encodings(&graph)[0];
    let mut target = vec![1u8; 31];
    target.push(1);
    let node = TestHasher.hash(
        b"hyperscale-vm/graph-node",
        &vec![target, b"m".to_vec(), encoding.evidence.clone()],
    );
    assert_eq!(
        h(&graph),
        ManifestHash(TestHasher.hash(b"hyperscale-vm/graph", &vec![node.0.to_vec()]))
    );
}

#[test]
fn an_argument_names_what_fills_it() {
    let edge = EdgeRef {
        producer: 1,
        output: 2,
    };
    let give = GiveRef { member: 3, give: 4 };
    assert_eq!(
        GraphArg::edge(edge, vec![]).source(),
        Some(ValueRef::Edge(edge))
    );
    assert_eq!(
        GraphArg::give(give, vec![]).source(),
        Some(ValueRef::Give(give))
    );
    assert_eq!(GraphArg::socket(5).source(), Some(ValueRef::Socket(5)));
    assert_eq!(GraphArg::Literal(Value::U64(1)).source(), None);
    assert_eq!(ValueRef::Socket(5).socket(), Some(5));
    assert_eq!(ValueRef::Give(give).socket(), None);
    assert_eq!(ValueRef::Give(give).give(), Some(give));
    assert_eq!(ValueRef::Edge(edge).give(), None);
}

#[test]
fn a_node_lists_the_sockets_and_gives_it_draws_on() {
    let give = GiveRef { member: 0, give: 1 };
    let node = GraphNode::new(
        component(1),
        "swap",
        vec![
            GraphArg::socket(4),
            GraphArg::Literal(Value::U64(9)),
            GraphArg::give(give, vec![]),
            GraphArg::socket(2),
        ],
    );
    assert_eq!(node.sockets(), vec![4, 2]);
    assert_eq!(node.gives(), vec![give]);
    assert!(node.evidence.is_empty());
}

#[test]
fn evidence_is_what_a_call_presents() {
    let account = PrincipalAddr::new([9; 31]);
    let signed = GraphNode::signed(account, component(1), "withdraw", vec![]);
    assert_eq!(signed.evidence.len(), 1);
    assert_eq!(signed.evidence.key(0), &ClaimRef::Account(account));
    let bearing = GraphNode::bearing(component(1), "withdraw", vec![], 7);
    assert_eq!(bearing.evidence.key(0), &ClaimRef::Node(7));
}
