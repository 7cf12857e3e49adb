//! The tree: intents composing intents through the interfaces they
//! declare, and the nullifiers that make a committed intent once-only.
//!
//! An intent's signer signs an [`Intent`] whole: its calls, the accounts
//! it acts as, the interface it presents (sockets for what it needs and
//! gives for the value it offers), and the members it composes, each
//! nested inside it with the wiring that fills its sockets.
//!
//! An intent's hash covers every member's hash, and so the whole subtree
//! beneath it. That is what makes a grant safe: an account's claim is
//! wired into a member only by an intent that names the account or
//! received the claim in a socket of its own, and that intent signed the
//! member it grants to.
//!
//! Committing an intent writes a kernel nullifier substate under each
//! account it acts as: two trees racing one intent contend on the
//! nullifier key and exactly one commits.
use vstd::array::array_as_slice;
use vstd::bytes::u32_to_le_bytes;
use vstd::prelude::*;

use crate::address::{PrincipalAddr, ResourceAddr};
use crate::graph::{ClaimRef, Constraint, ManifestGraph, NodeEncoding, ValueRef};
use crate::hash::{Hash32, Hasher};
use crate::instance::InstanceMeta;
use crate::presented::Claim;
use crate::record::ResourceMeta;
use crate::term::copy_bytes;
use crate::types::{SubstateKey, Value};

verus! {

/// The bound on accounts one intent may act as.
pub const MAX_ACCOUNTS: usize = 8;

/// The bound on how deep a tree nests: a root alone is one, and each
/// member sits one deeper than its composer.
pub const MAX_TREE_DEPTH: usize = 8;

/// A shaped opening an intent declares for something it cannot supply
/// itself, which the intent composing it fills.
///
/// Two things cross an intent boundary and both cross this way: the
/// declaration says what, and its signer signs that; the composer says
/// whose, in wiring the composer signs and the declaring party never sees.
#[derive(Debug, PartialEq, Eq)]
pub enum Socket {
    /// A value edge carrying exactly this resource, under the declaring
    /// intent's own constraints.
    Value {
        /// The resource the edge must carry.
        resource: ResourceAddr,
        /// The declaring intent's constraints on it.
        constraints: Vec<Constraint>,
    },
    /// A proof carrying exactly this claim.
    Authority(Claim),
}

/// The network an intent is declared for.
#[derive(Clone, Copy, Debug, PartialEq, Eq, Structural)]
pub struct NetworkId(pub u32);

/// The terms an intent is admissible under: the network it was declared
/// for and the window it stands in.
#[derive(Clone, Copy, Debug, PartialEq, Eq, Structural)]
pub struct IntentHeader {
    /// The network this intent is declared for.
    pub network: NetworkId,
    /// The window's inclusive start, in weighted-time milliseconds.
    pub validity_start_ms: u64,
    /// The window's exclusive end.
    pub validity_end_ms: u64,
    /// What distinguishes this intent from an identical one.
    pub discriminator: u64,
}

/// One signed intent: what one party wants, and what it composes.
///
/// Recursive. A leaf has no members; the root is the one nobody composes.
#[derive(Debug, PartialEq, Eq)]
pub struct Intent {
    /// What the intent is admissible under, as against what it does.
    pub header: IntentHeader,
    /// The accounts this intent acts as: each the owner of one of its
    /// nullifiers.
    pub accounts: Vec<PrincipalAddr>,
    /// The principals whose keys attest this intent, in the order their
    /// attestations stand beside it.
    pub attested_by: Vec<PrincipalAddr>,
    /// The intent's invocation graph.
    pub graph: ManifestGraph,
    /// The sockets this intent declares.
    pub sockets: Vec<Socket>,
    /// The value this intent offers its composer.
    pub gives: Vec<ValueRef>,
    /// The intents this one composes, each with the wiring that fills its
    /// sockets.
    pub members: Vec<Member>,
}

/// One attestation over an intent's hash.
#[derive(Debug, PartialEq, Eq)]
pub struct Attestation(pub Vec<u8>);

/// An intent and the attestations over it: what a counterparty hands over,
/// and what a composer places as a member.
///
/// The attestations are transport: an intent's hash, and so the hash of
/// any intent composing it, covers the declared principals and never the
/// signature bytes.
#[derive(Debug, PartialEq, Eq)]
pub struct SignedIntent {
    /// The declaration.
    pub intent: Intent,
    /// One attestation for each principal in the intent's `attested_by`,
    /// in that order, each over the intent's hash.
    pub signatures: Vec<Attestation>,
}

/// One member of a composing intent: the signed intent, and how its
/// composer fills its sockets.
#[derive(Debug, PartialEq, Eq)]
pub struct Member {
    /// The composed intent with its attestations, whole.
    pub signed: SignedIntent,
    /// One binding for each socket the intent declares, in declaration
    /// order.
    pub wiring: Vec<Binding>,
}

/// What a composer puts in one of a member's sockets.
#[derive(Clone, Copy, Debug, PartialEq, Eq)]
pub enum Binding {
    /// A value edge, for a value socket.
    Value(ValueRef),
    /// A claim, for an authority socket.
    Authority(ClaimRef),
}

/// A signed intent's identity.
#[derive(Clone, Copy, Debug, Eq)]
pub struct IntentHash(pub Hash32);

impl PartialEq for IntentHash {
    fn eq(&self, other: &Self) -> (r: bool) {
        self.0 == other.0
    }
}

impl vstd::std_specs::cmp::PartialEqSpecImpl for IntentHash {
    open spec fn obeys_eq_spec() -> bool {
        true
    }

    open spec fn eq_spec(&self, other: &Self) -> bool {
        *self == *other
    }
}

/// What an intent's parts encode as, on the wire.
#[derive(Debug, PartialEq, Eq)]
pub struct IntentEncoding {
    /// The header's canonical encoding.
    pub header: Vec<u8>,
    /// The accounts' canonical encoding.
    pub accounts: Vec<u8>,
    /// The attesting principals' canonical encoding.
    pub attested_by: Vec<u8>,
    /// Each node's canonical encodings, in order.
    pub nodes: Vec<NodeEncoding>,
    /// Each socket's canonical encoding, in order.
    pub sockets: Vec<Vec<u8>>,
    /// Each give's canonical encoding, in order.
    pub gives: Vec<Vec<u8>>,
    /// Each member's encodings, in order.
    pub members: Vec<MemberEncoding>,
}

/// What a member's parts encode as, on the wire.
#[derive(Debug, PartialEq, Eq)]
pub struct MemberEncoding {
    /// The intent's encodings.
    pub intent: IntentEncoding,
    /// The wiring's canonical encoding.
    pub wiring: Vec<u8>,
}

/// The domain an intent is hashed under.
pub open spec fn intent_domain() -> Seq<u8> {
    vstd::utf8::encode_utf8("hyperscale-vm/intent"@)
}

/// The domain a tree is hashed under.
pub open spec fn tree_domain() -> Seq<u8> {
    vstd::utf8::encode_utf8("hyperscale-vm/intent-tree"@)
}

/// A section's count, as the part that leads it.
pub open spec fn count_part(count: nat) -> Seq<u8> {
    vstd::bytes::spec_u32_to_le_bytes(count as u32)
}

/// Each member's hash and its wiring's encoding, one after the other.
pub open spec fn member_parts(members: Seq<IntentHash>, encodings: Seq<MemberEncoding>) -> Seq<
    Seq<u8>,
> {
    Seq::new(
        2 * members.len(),
        |i: int|
            if i % 2 == 0 {
                members[i / 2].0.0@
            } else {
                encodings[i / 2].wiring@
            },
    )
}

/// What an intent is hashed over: the header, the accounts, the attesting
/// principals, the graph hash, then the sockets, the gives, and every
/// member's hash with its wiring, each section led by its count.
pub open spec fn intent_parts(
    encoding: IntentEncoding,
    graph: Hash32,
    members: Seq<IntentHash>,
) -> Seq<Seq<u8>> {
    seq![
        encoding.header@,
        encoding.accounts@,
        encoding.attested_by@,
        graph.0@,
        count_part(encoding.sockets@.len()),
    ] + crate::hash::part_bytes(encoding.sockets@) + seq![count_part(encoding.gives@.len())]
        + crate::hash::part_bytes(encoding.gives@) + seq![count_part(members.len())]
        + member_parts(members, encoding.members@)
}

impl Intent {
    /// Whether encodings are of this intent: one for each socket, give and
    /// node, and of each member on the same terms. Every section counts in
    /// a wire count.
    pub open spec fn is_encoded_by(self, encoding: IntentEncoding) -> bool
        decreases self,
    {
        &&& encoding.sockets@.len() == self.sockets@.len() <= u32::MAX
        &&& encoding.gives@.len() == self.gives@.len() <= u32::MAX
        &&& encoding.members@.len() == self.members@.len() <= u32::MAX
        &&& crate::graph::is_encoding_of(self.graph.nodes@, encoding.nodes@)
        &&& forall|i: int|
            0 <= i < self.members@.len() ==> (#[trigger] self.members@[i]).signed.intent.is_encoded_by(
                encoding.members@[i].intent,
            )
    }

    /// The intent's identity: a digest over its own parts and over every
    /// member's identity.
    pub open spec fn identity<H: Hasher>(self, hasher: H, encoding: IntentEncoding) -> IntentHash
        decreases self, 1int,
    {
        IntentHash(
            hasher.digest(
                intent_domain(),
                intent_parts(
                    encoding,
                    self.graph.identity(hasher, encoding.nodes@),
                    self.member_identities(hasher, encoding),
                ),
            ),
        )
    }

    /// The identities of an intent's members, in order.
    pub open spec fn member_identities<H: Hasher>(self, hasher: H, encoding: IntentEncoding) -> Seq<
        IntentHash,
    >
        decreases self, 0int,
    {
        let members = self.members@;
        Seq::new(
            members.len(),
            |i: int|
                if 0 <= i < members.len() {
                    members[i].signed.intent.identity(hasher, encoding.members@[i].intent)
                } else {
                    IntentHash(hasher.digest(Seq::empty(), Seq::empty()))
                },
        )
    }

    /// The intent's identity through the hashing seam.
    ///
    /// The counts are what make the section boundaries part of the
    /// preimage. A member's attestations stay out: they are transport, and
    /// the principals they pair with are in the member's own hash.
    pub fn hash<H: Hasher>(&self, hasher: &H, encoding: &IntentEncoding) -> (r: IntentHash)
        requires
            self.is_encoded_by(*encoding),
        ensures
            r == self.identity(*hasher, *encoding),
        decreases self,
    {
        let ghost all = self.member_identities(*hasher, *encoding);
        let mut members: Vec<IntentHash> = Vec::new();
        let mut i: usize = 0;
        while i < self.members.len()
            invariant
                i <= self.members.len(),
                self.is_encoded_by(*encoding),
                members.len() == i,
                all == self.member_identities(*hasher, *encoding),
                forall|j: int| 0 <= j < i ==> #[trigger] members@[j] == all[j],
            decreases self.members.len() - i,
        {
            assert(self.members@[i as int].signed.intent.is_encoded_by(
                encoding.members@[i as int].intent,
            ));
            assert(decreases_to!(self.members@ => self.members@[i as int]));
            members.push(self.members[i].signed.intent.hash(hasher, &encoding.members[i].intent));
            i = i + 1;
        }
        assert(members@ =~= all);
        self.hash_over(&members, hasher, encoding)
    }

    /// [`Intent::hash`] with the members' hashes supplied, one for each
    /// member in order, for a walk that hashes a tree bottom-up and
    /// computes each intent's hash once.
    pub fn hash_over<H: Hasher>(
        &self,
        members: &Vec<IntentHash>,
        hasher: &H,
        encoding: &IntentEncoding,
    ) -> (r: IntentHash)
        requires
            self.is_encoded_by(*encoding),
            members@.len() == self.members@.len(),
        ensures
            r.0 == hasher.digest(
                intent_domain(),
                intent_parts(
                    *encoding,
                    self.graph.identity(*hasher, encoding.nodes@),
                    members@,
                ),
            ),
    {
        let graph = self.graph.hash(hasher, &encoding.nodes);
        let ghost whole = intent_parts(*encoding, graph.0, members@);
        let ghost sockets = encoding.sockets@.len();
        let ghost gives = encoding.gives@.len();
        let mut parts: Vec<Vec<u8>> = Vec::new();
        parts.push(copy_bytes(encoding.header.as_slice()));
        parts.push(copy_bytes(encoding.accounts.as_slice()));
        parts.push(copy_bytes(encoding.attested_by.as_slice()));
        parts.push(copy_bytes(array_as_slice(&graph.0.0)));
        parts.push(u32_to_le_bytes(encoding.sockets.len() as u32));
        assert(forall|j: int| 0 <= j < 5 ==> (#[trigger] parts@[j])@ == whole[j]);
        push_parts(&mut parts, &encoding.sockets);
        assert(forall|j: int| 0 <= j < 5 + sockets ==> (#[trigger] parts@[j])@ == whole[j]);
        parts.push(u32_to_le_bytes(encoding.gives.len() as u32));
        assert(whole[5 + sockets as int] == count_part(gives));
        push_parts(&mut parts, &encoding.gives);
        assert(forall|j: int| 0 <= j < 6 + sockets + gives ==> (#[trigger] parts@[j])@ == whole[j]);
        parts.push(u32_to_le_bytes(members.len() as u32));
        let ghost lead = 7 + sockets + gives;
        assert(whole[lead as int - 1] == count_part(members@.len()));
        let mut i: usize = 0;
        while i < members.len()
            invariant
                i <= members.len(),
                encoding.members@.len() == members@.len(),
                parts@.len() == lead + 2 * i,
                whole == intent_parts(*encoding, graph.0, members@),
                lead == 7 + encoding.sockets@.len() + encoding.gives@.len(),
                forall|j: int| 0 <= j < lead + 2 * i ==> (#[trigger] parts@[j])@ == whole[j],
            decreases members.len() - i,
        {
            proof {
                let own = member_parts(members@, encoding.members@);
                assert(whole[lead + 2 * i] == own[2 * i as int]);
                assert(whole[lead + 2 * i + 1] == own[2 * i + 1]);
            }
            parts.push(copy_bytes(array_as_slice(&members[i].0.0)));
            parts.push(copy_bytes(encoding.members[i].wiring.as_slice()));
            i = i + 1;
        }
        assert(crate::hash::part_bytes(parts@) =~= whole);
        IntentHash(hasher.hash("hyperscale-vm/intent".as_bytes(), &parts))
    }
}

/// Append parts, each copied.
fn push_parts(into: &mut Vec<Vec<u8>>, parts: &Vec<Vec<u8>>)
    ensures
        final(into)@.len() == old(into)@.len() + parts@.len(),
        forall|i: int|
            0 <= i < old(into)@.len() ==> (#[trigger] final(into)@[i])@ == old(into)@[i]@,
        forall|i: int|
            old(into)@.len() <= i < final(into)@.len() ==> (#[trigger] final(into)@[i])@
                == parts@[i - old(into)@.len()]@,
{
    let ghost start = into@;
    let mut i: usize = 0;
    while i < parts.len()
        invariant
            i <= parts.len(),
            into@.len() == start.len() + i,
            forall|j: int| 0 <= j < start.len() ==> (#[trigger] into@[j])@ == start[j]@,
            forall|j: int|
                start.len() <= j < into@.len() ==> (#[trigger] into@[j])@ == parts@[j
                    - start.len()]@,
        decreases parts.len() - i,
    {
        into.push(copy_bytes(parts[i].as_slice()));
        i = i + 1;
    }
}

/// The tree an envelope carries and admission runs over: the root, with
/// every intent it composes nested inside it, and the creation-fixed
/// records their calls resolve against.
///
/// Tree order is preorder: the root first, then each member's subtree in
/// the order its composer holds it.
#[derive(Debug, PartialEq, Eq)]
pub struct IntentTree {
    /// The intent nobody composes, and beneath it every other intent the
    /// tree holds.
    pub root: Intent,
    /// The creation-fixed records of the component targets the tree names
    /// beyond what the genesis registry serves.
    pub instances: Vec<InstanceMeta>,
    /// The granted-rule records of the resources the tree's gates name.
    pub resources: Vec<ResourceMeta>,
}

/// One nullifier an admitted intent writes: under which account, and at
/// which cell.
#[derive(Clone, Copy, Debug, PartialEq, Eq)]
pub struct Nullifier {
    /// The account the intent acts as, whose prefix the cell sits under.
    pub account: PrincipalAddr,
    /// The canonical nullifier key under that account.
    pub key: SubstateKey,
}

/// One admitted intent: its signed identity and the nullifier keys whose
/// creation writes make it once-only.
#[derive(Debug, PartialEq, Eq)]
pub struct IntentRecord {
    /// The signed intent's hash.
    pub intent: IntentHash,
    /// One nullifier for each account the intent acts as, in the order the
    /// intent names them.
    pub nullifiers: Vec<Nullifier>,
    /// When the nullifiers stop being owed: the intent's own window end
    /// plus the grace.
    pub expiry_ms: u64,
}

impl IntentRecord {
    /// The accounts the intent acts as, in the order it names them.
    pub fn accounts(&self) -> (r: Vec<PrincipalAddr>)
        ensures
            r@ == Seq::new(self.nullifiers@.len(), |i: int| self.nullifiers@[i].account),
    {
        let mut r: Vec<PrincipalAddr> = Vec::new();
        let mut i: usize = 0;
        while i < self.nullifiers.len()
            invariant
                i <= self.nullifiers.len(),
                r.len() == i,
                forall|j: int| 0 <= j < i ==> #[trigger] r@[j] == self.nullifiers@[j].account,
            decreases self.nullifiers.len() - i,
        {
            r.push(self.nullifiers[i].account);
            i = i + 1;
        }
        assert(r@ =~= Seq::new(self.nullifiers@.len(), |i: int| self.nullifiers@[i].account));
        r
    }
}

impl SignedIntent {
    /// `intent` with no attestation yet.
    pub fn unsigned(intent: Intent) -> (r: Self)
        ensures
            r.intent == intent,
            r.signatures@.len() == 0,
    {
        SignedIntent { intent, signatures: Vec::new() }
    }

    /// Stand an attestation over the intent's hash beside those already
    /// given. The caller signs in the order the intent declares its
    /// attesting principals.
    pub fn attest(&mut self, attestation: Attestation)
        ensures
            final(self).intent == old(self).intent,
            final(self).signatures@ == old(self).signatures@.push(attestation),
    {
        self.signatures.push(attestation);
    }
}

impl Intent {
    /// How deep this intent nests: one for a leaf, one more than the
    /// deepest member otherwise.
    pub open spec fn nesting(self) -> nat
        decreases self,
    {
        1 + Intent::deepest(self.members@)
    }

    /// How deep the deepest of a run of members nests, or nothing.
    pub open spec fn deepest(members: Seq<Member>) -> nat
        decreases members,
    {
        if members.len() == 0 {
            0
        } else {
            let before = Intent::deepest(members.drop_last());
            let last = members.last().signed.intent.nesting();
            if before >= last {
                before
            } else {
                last
            }
        }
    }

    /// The deepest of a run of members is as deep as any of them.
    proof fn lemma_deepest(members: Seq<Member>, i: int)
        requires
            0 <= i < members.len(),
        ensures
            members[i].signed.intent.nesting() <= Intent::deepest(members),
        decreases members.len(),
    {
        if i < members.len() - 1 {
            assert(members.drop_last()[i] == members[i]);
            Intent::lemma_deepest(members.drop_last(), i);
        }
    }

    /// How deep this intent nests: one for a leaf, one more than the
    /// deepest member otherwise.
    pub fn depth(&self) -> (r: usize)
        requires
            self.nesting() <= usize::MAX,
        ensures
            r == self.nesting(),
        decreases self,
    {
        let mut deepest: usize = 0;
        let mut i: usize = 0;
        assert(self.members@.take(0) =~= Seq::empty());
        while i < self.members.len()
            invariant
                i <= self.members.len(),
                self.nesting() <= usize::MAX,
                deepest == Intent::deepest(self.members@.take(i as int)),
                deepest <= Intent::deepest(self.members@),
            decreases self.members.len() - i,
        {
            proof {
                Intent::lemma_deepest(self.members@, i as int);
                let longer = self.members@.take(i as int + 1);
                assert(longer.drop_last() =~= self.members@.take(i as int));
                assert(longer.last() == self.members@[i as int]);
                assert(decreases_to!(self.members@ => self.members@[i as int]));
            }
            let depth = self.members[i].signed.intent.depth();
            if depth > deepest {
                deepest = depth;
            }
            i = i + 1;
        }
        assert(self.members@.take(i as int) =~= self.members@);
        1 + deepest
    }

    /// Every member's signed intent beneath this one, in tree order: each
    /// before its own members.
    pub open spec fn all_signed(self) -> Seq<SignedIntent>
        decreases self,
    {
        Intent::signed_of(self.members@)
    }

    /// Every signed intent a run of members holds, in tree order.
    pub open spec fn signed_of(members: Seq<Member>) -> Seq<SignedIntent>
        decreases members,
    {
        if members.len() == 0 {
            Seq::empty()
        } else {
            Intent::signed_of(members.drop_last()) + (seq![members.last().signed]
                + members.last().signed.intent.all_signed())
        }
    }

    /// Append every member's signed intent beneath this one.
    fn push_signed<'a>(&'a self, into: &mut Vec<&'a SignedIntent>)
        ensures
            final(into)@.unref() == old(into)@.unref() + self.all_signed(),
        decreases self,
    {
        let ghost start = into@.unref();
        let mut i: usize = 0;
        assert(self.members@.take(0) =~= Seq::empty());
        assert(start + Intent::signed_of(self.members@.take(0)) =~= start);
        while i < self.members.len()
            invariant
                i <= self.members.len(),
                into@.unref() == start + Intent::signed_of(self.members@.take(i as int)),
            decreases self.members.len() - i,
        {
            let ghost before = into@.unref();
            let ghost listed = Intent::signed_of(self.members@.take(i as int));
            let signed = &self.members[i].signed;
            into.push(signed);
            assert(into@.unref() =~= before + seq![*signed]);
            assert(decreases_to!(self.members@ => self.members@[i as int]));
            signed.intent.push_signed(into);
            proof {
                let longer = self.members@.take(i as int + 1);
                assert(longer.drop_last() =~= self.members@.take(i as int));
                assert(longer.last() == self.members@[i as int]);
                let own = seq![*signed] + signed.intent.all_signed();
                assert(start + listed + seq![*signed] + signed.intent.all_signed() =~= start + (
                listed + own));
            }
            i = i + 1;
        }
        assert(self.members@.take(i as int) =~= self.members@);
    }

    /// Every member's signed intent beneath this one, in tree order, for a
    /// verifier walking what each attestation covers.
    pub fn signed_members(&self) -> (r: Vec<&SignedIntent>)
        ensures
            r@.unref() == self.all_signed(),
    {
        let mut signed: Vec<&SignedIntent> = Vec::new();
        self.push_signed(&mut signed);
        assert(signed@.unref() =~= self.all_signed());
        signed
    }

    /// This intent and every one beneath it, in tree order.
    pub open spec fn all_intents(self) -> Seq<Intent> {
        seq![self] + Seq::new(self.all_signed().len(), |i: int| self.all_signed()[i].intent)
    }

    /// A leaf acting as `account` under `header`, attested by that
    /// account's own key: a graph, no interface, no members.
    pub fn leaf(header: IntentHeader, account: PrincipalAddr, graph: ManifestGraph) -> (r: Self)
        ensures
            r.header == header,
            r.accounts@ == seq![account],
            r.attested_by@ == seq![account],
            r.graph == graph,
            r.sockets@.len() == 0,
            r.gives@.len() == 0,
            r.members@.len() == 0,
    {
        Intent {
            header,
            accounts: vec![account],
            attested_by: vec![account],
            graph,
            sockets: Vec::new(),
            gives: Vec::new(),
            members: Vec::new(),
        }
    }
}

} // verus!
