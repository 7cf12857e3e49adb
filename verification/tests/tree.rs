//! Trees of signed intents.
use vm_effects::address::{Address, AddressClass, CallTarget, ComponentAddr, PrincipalAddr};
use vm_effects::admission::Admitted;
use vm_effects::effect::{Effect, EffectTarget, Mode, Moves};
use vm_effects::graph::{GraphArg, GraphNode, ManifestGraph, NodeEncoding};
use vm_effects::hash::{Hash32, Hasher};
use vm_effects::instance::InstanceMeta;
use vm_effects::intent::{
    Attestation, Intent, IntentEncoding, IntentHash, IntentHeader, IntentTree, Member,
    MemberEncoding, NetworkId, SignedIntent,
};
use vm_effects::manifest::Manifest;
use vm_effects::metadata::PackageHash;
use vm_effects::tree::{
    admit_encoded_tree, admit_tree, decode_tree, IntentTerms, TreeDecodeError, TreeRefusal,
};
use vm_effects::types::{LocalKey, SubstateKey, Value, MAX_VALUE_DEPTH};

/// A digest that mixes the domain, every part, and every part's length.
struct TestHasher;

impl Hasher for TestHasher {
    fn hash(&self, domain: &[u8], parts: &Vec<Vec<u8>>) -> Hash32 {
        let mut state = [0u8; 32];
        let mut at = 0usize;
        let mut mix = |byte: u8| {
            let carried = state[at];
            at = (at + 1) % 32;
            state[at] = state[at]
                .wrapping_mul(31)
                .wrapping_add(byte)
                .wrapping_add(carried.rotate_left(3))
                .wrapping_add(1);
        };
        for byte in domain {
            mix(*byte);
        }
        for part in parts {
            for byte in (part.len() as u64).to_le_bytes() {
                mix(byte);
            }
            for byte in part {
                mix(*byte);
            }
        }
        Hash32(state)
    }
}

fn account(seed: u8) -> PrincipalAddr {
    PrincipalAddr::new([seed; 31])
}

fn calling(literal: Value) -> ManifestGraph {
    ManifestGraph {
        nodes: vec![GraphNode::new(
            CallTarget::Component(ComponentAddr::new([1; 31])),
            "pay",
            vec![GraphArg::Literal(literal)],
        )],
    }
}

fn leaf(seed: u8) -> Intent {
    Intent::leaf(
        IntentHeader {
            network: NetworkId(1),
            validity_start_ms: 0,
            validity_end_ms: 100,
            discriminator: u64::from(seed),
        },
        account(seed),
        calling(Value::U64(u64::from(seed))),
    )
}

fn composing(seed: u8, members: Vec<Intent>) -> Intent {
    let mut intent = leaf(seed);
    intent.members = members
        .into_iter()
        .map(|member| Member {
            signed: SignedIntent::unsigned(member),
            wiring: vec![],
        })
        .collect();
    intent
}

/// 1 over (2 over 3) and 4.
fn nested() -> Intent {
    composing(1, vec![composing(2, vec![leaf(3)]), leaf(4)])
}

fn encoded(intent: &Intent) -> IntentEncoding {
    IntentEncoding {
        header: format!("{:?}", intent.header).into_bytes(),
        accounts: format!("{:?}", intent.accounts).into_bytes(),
        attested_by: format!("{:?}", intent.attested_by).into_bytes(),
        nodes: intent
            .graph
            .nodes
            .iter()
            .map(|node| NodeEncoding {
                args: node
                    .args
                    .iter()
                    .map(|arg| format!("{arg:?}").into_bytes())
                    .collect(),
                evidence: format!("{:?}", node.evidence).into_bytes(),
            })
            .collect(),
        sockets: intent
            .sockets
            .iter()
            .map(|socket| format!("{socket:?}").into_bytes())
            .collect(),
        gives: intent
            .gives
            .iter()
            .map(|give| format!("{give:?}").into_bytes())
            .collect(),
        members: intent
            .members
            .iter()
            .map(|member| MemberEncoding {
                intent: encoded(&member.signed.intent),
                wiring: format!("{:?}", member.wiring).into_bytes(),
            })
            .collect(),
    }
}

fn identity(intent: &Intent) -> IntentHash {
    intent.hash(&TestHasher, &encoded(intent))
}

fn named(tree: &IntentTree) -> Vec<u64> {
    tree.intents()
        .iter()
        .map(|intent| intent.header.discriminator)
        .collect()
}

#[test]
fn a_leaf_is_its_own_accounts() {
    let intent = leaf(7);
    assert_eq!(intent.accounts, vec![account(7)]);
    assert_eq!(intent.attested_by, vec![account(7)]);
    assert!(intent.members.is_empty());
    assert_eq!(intent.depth(), 1);
    assert!(intent.signed_members().is_empty());
}

#[test]
fn a_tree_lists_its_intents_in_preorder() {
    let tree = IntentTree::of_one(nested());
    assert_eq!(named(&tree), vec![1, 2, 3, 4]);
    assert_eq!(tree.root.depth(), 3);
    assert_eq!(tree.node_count(), 4);
    let signed: Vec<u64> = tree
        .root
        .signed_members()
        .iter()
        .map(|signed| signed.intent.header.discriminator)
        .collect();
    assert_eq!(signed, vec![2, 3, 4]);
}

/// An attestation is transport: it stands beside the intent, and no hash
/// covers it.
#[test]
fn attestations_stay_out_of_the_hash() {
    let mut root = nested();
    let before = identity(&root);
    root.members[0].signed.attest(Attestation(vec![1]));
    root.members[0].signed.attest(Attestation(vec![2]));
    assert_eq!(
        root.members[0].signed.signatures,
        vec![Attestation(vec![1]), Attestation(vec![2])]
    );
    assert_eq!(identity(&root), before);
}

/// Every section of an intent, its members' included, is in its hash.
#[test]
fn an_intent_hash_covers_its_sections() {
    let before = identity(&nested());
    assert_eq!(identity(&nested()), before);
    let mut header = nested();
    header.header.validity_end_ms = 101;
    let mut accounts = nested();
    accounts.accounts.push(account(9));
    let mut attested = nested();
    attested.attested_by.clear();
    let mut graph = nested();
    graph.graph = calling(Value::U64(2));
    let mut beneath = nested();
    beneath.members[0].signed.intent.members[0]
        .signed
        .intent
        .header
        .discriminator = 33;
    let mut fewer = nested();
    fewer.members.pop();
    for other in [header, accounts, attested, graph, beneath, fewer] {
        assert_ne!(identity(&other), before);
    }
}

/// One hash for each intent, in tree order, each the intent's own.
#[test]
fn a_tree_hashes_each_intent_once() {
    let tree = IntentTree::of_one(nested());
    let hashes = tree.hashes(&TestHasher, &encoded(&tree.root));
    let own: Vec<IntentHash> = tree.intents().into_iter().map(identity).collect();
    assert_eq!(hashes, own);
}

/// What the calls resolve against is part of what was composed.
#[test]
fn a_tree_hash_covers_its_records() {
    let tree = IntentTree::of_one(nested());
    let encoding = encoded(&tree.root);
    let plain = tree.hash(&TestHasher, &encoding, b"", b"");
    assert_ne!(plain, tree.hash(&TestHasher, &encoding, b"i", b""));
    assert_ne!(plain, tree.hash(&TestHasher, &encoding, b"", b"r"));
    let root = identity(&tree.root);
    assert_eq!(
        plain.0,
        TestHasher.hash(
            b"hyperscale-vm/intent-tree",
            &vec![root.0 .0.to_vec(), vec![], vec![]]
        )
    );
}

fn deep(levels: usize) -> Value {
    let mut value = Value::U64(0);
    for _ in 1..levels {
        value = Value::Tuple(vec![value]);
    }
    value
}

fn shaped(tree: &IntentTree) -> Result<(), TreeRefusal<&'static str>> {
    tree.check_shape(Ok(()))
}

#[test]
fn a_literal_past_the_value_depth_is_refused_wherever_it_sits() {
    let holding = |levels| {
        let mut root = nested();
        root.members[0].signed.intent.members[0].signed.intent.graph = calling(deep(levels));
        IntentTree::of_one(root)
    };
    assert_eq!(shaped(&holding(MAX_VALUE_DEPTH)), Ok(()));
    assert_eq!(
        shaped(&holding(MAX_VALUE_DEPTH + 1)),
        Err(TreeRefusal::ValueTooDeep)
    );

    let presenting = |levels| IntentTree {
        root: leaf(1),
        instances: vec![InstanceMeta {
            package: PackageHash(Hash32([1; 32])),
            config: vec![Value::U64(0), deep(levels)],
            salt: Hash32([2; 32]),
        }],
        resources: vec![],
    };
    assert_eq!(shaped(&presenting(MAX_VALUE_DEPTH)), Ok(()));
    assert_eq!(
        shaped(&presenting(MAX_VALUE_DEPTH + 1)),
        Err(TreeRefusal::ValueTooDeep)
    );
}

#[test]
fn bytes_are_a_tree_only_inside_its_shape() {
    let tree = || IntentTree::of_one(nested());
    let read = |decoded, flattened| decode_tree::<&str, &str>(decoded, flattened);
    assert_eq!(read(Ok(tree()), Ok(())), Ok(tree()));
    assert_eq!(
        read(Err("not a tree"), Ok(())),
        Err(TreeDecodeError::Decode("not a tree"))
    );
    assert_eq!(
        read(Ok(tree()), Err("too wide")),
        Err(TreeDecodeError::Shape(TreeRefusal::Shape("too wide")))
    );
    assert_eq!(
        read(
            Ok(IntentTree::of_one(Intent {
                graph: calling(deep(MAX_VALUE_DEPTH + 1)),
                ..leaf(1)
            })),
            Ok(())
        ),
        Err(TreeDecodeError::Shape(TreeRefusal::ValueTooDeep))
    );
}

fn key(seed: u8) -> SubstateKey {
    SubstateKey {
        owner: Address::new([seed; 31], AddressClass::Principal),
        local: LocalKey([seed; 16]),
    }
}

fn terms() -> Vec<IntentTerms> {
    [1u8, 2, 3, 4]
        .into_iter()
        .map(|seed| IntentTerms {
            expiry_ms: 100 + u64::from(seed),
            keys: vec![key(seed)],
        })
        .collect()
}

fn bare() -> Admitted {
    Admitted {
        manifest: Manifest::default(),
        injected: vec![],
        effects: vec![],
        intents: vec![],
    }
}

fn distinct() -> Vec<IntentHash> {
    [1u8, 2, 3, 4]
        .into_iter()
        .map(|seed| IntentHash(Hash32([seed; 32])))
        .collect()
}

/// One nullifier for each account of each intent, and one exclusive
/// creation for each nullifier.
#[test]
fn every_account_of_an_admitted_tree_is_nullified() {
    let tree = IntentTree::of_one(nested());
    let admitted = admit_tree::<&str>(&tree, Ok(()), &distinct(), Ok(()), &terms(), Ok(bare()))
        .expect("admissible");
    assert_eq!(
        admitted.effects,
        [1u8, 2, 3, 4]
            .into_iter()
            .map(|seed| Effect {
                target: EffectTarget::Point(key(seed)),
                mode: Mode::Write { moves: Moves::Both },
            })
            .collect::<Vec<Effect>>()
    );
    assert_eq!(admitted.intents.len(), 4);
    for (index, record) in admitted.intents.iter().enumerate() {
        let seed = index as u8 + 1;
        assert_eq!(record.intent, IntentHash(Hash32([seed; 32])));
        assert_eq!(record.accounts(), vec![account(seed)]);
        assert_eq!(record.nullifiers[0].key, key(seed));
        assert_eq!(record.expiry_ms, 100 + u64::from(seed));
    }
}

#[test]
fn each_refusal_of_a_tree_is_told_apart() {
    let tree = IntentTree::of_one(nested());
    let told = |flattened, identities: Vec<IntentHash>, resolved, admitted| {
        admit_tree::<&str>(&tree, flattened, &identities, resolved, &terms(), admitted)
            .map(|_| ())
    };
    assert_eq!(
        told(Err("wide"), distinct(), Ok(()), Ok(bare())),
        Err(TreeRefusal::Shape("wide"))
    );
    // The later of two alike is the one named.
    let mut repeated = distinct();
    repeated[2] = repeated[0];
    assert_eq!(
        told(Ok(()), repeated, Ok(()), Ok(bare())),
        Err(TreeRefusal::DuplicateIntent { index: 2 })
    );
    assert_eq!(
        told(Ok(()), distinct(), Err("socket"), Ok(bare())),
        Err(TreeRefusal::Unresolved("socket"))
    );
    assert_eq!(
        told(Ok(()), distinct(), Ok(()), Err("claim")),
        Err(TreeRefusal::Refused("claim"))
    );
}

/// Each record is under its own intent's hash.
#[test]
fn an_encoded_tree_is_recorded_under_its_intents_own_hashes() {
    let tree = IntentTree::of_one(nested());
    let admitted = admit_encoded_tree::<TestHasher, &str>(
        &tree,
        &TestHasher,
        &encoded(&tree.root),
        Ok(()),
        Ok(()),
        &terms(),
        Ok(bare()),
    )
    .expect("admissible");
    let own: Vec<IntentHash> = tree.intents().into_iter().map(identity).collect();
    let recorded: Vec<IntentHash> = admitted
        .intents
        .iter()
        .map(|record| record.intent)
        .collect();
    assert_eq!(recorded, own);
    assert_eq!(admitted.effects.len(), 4);
}

/// One intent placed twice is refused at the later place.
#[test]
fn an_encoded_tree_holds_each_intent_once() {
    let tree = IntentTree::of_one(composing(1, vec![composing(2, vec![leaf(3)]), leaf(3)]));
    let told = admit_encoded_tree::<TestHasher, &str>(
        &tree,
        &TestHasher,
        &encoded(&tree.root),
        Ok(()),
        Ok(()),
        &terms(),
        Ok(bare()),
    );
    assert_eq!(
        told.map(|_| ()),
        Err(TreeRefusal::DuplicateIntent { index: 3 })
    );
}

/// The shape is judged ahead of every hash, and its refusal stands.
#[test]
fn an_encoded_tree_past_its_shape_is_refused_as_such() {
    let told = |tree: &IntentTree, flattened| {
        admit_encoded_tree::<TestHasher, &str>(
            tree,
            &TestHasher,
            &encoded(&tree.root),
            flattened,
            Ok(()),
            &terms(),
            Ok(bare()),
        )
        .map(|_| ())
    };
    let repeated = || composing(1, vec![composing(2, vec![leaf(3)]), leaf(3)]);
    assert_eq!(
        told(&IntentTree::of_one(repeated()), Err("wide")),
        Err(TreeRefusal::Shape("wide"))
    );
    let mut deeper = repeated();
    deeper.graph = calling(deep(MAX_VALUE_DEPTH + 1));
    assert_eq!(
        told(&IntentTree::of_one(deeper), Ok(())),
        Err(TreeRefusal::ValueTooDeep)
    );
}
