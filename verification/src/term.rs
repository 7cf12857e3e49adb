//! The mathematical form every value of the vocabulary is compared in.
use vstd::prelude::*;

verus! {

/// A tagged tree: what a value, an expression, a target or a rule is once
/// its boxes and vectors are forgotten.
///
/// Two pieces of a declaration are the same piece exactly when their terms
/// are equal, which is what every syntactic comparison is stated over. The
/// leading number of a node says which form it takes.
#[verifier::ext_equal]
pub enum Term {
    /// A node carrying one number.
    Scalar(int, int),
    /// A node carrying bytes.
    Bytes(int, Seq<u8>),
    /// A node carrying identifiers.
    Ids(int, Seq<u64>),
    /// A node carrying text.
    Text(int, Seq<char>),
    /// A node carrying what is beneath it, in order.
    Node(int, Seq<Term>),
}

impl Term {
    /// The term no value takes, which fills out a sequence past its end.
    pub open spec fn nothing() -> Term {
        Term::Scalar(-1, 0)
    }

    /// Two nodes over one term each are equal exactly where those are.
    pub proof fn lemma_one(left: Term, right: Term)
        ensures
            (seq![left] == seq![right]) == (left == right),
    {
        assert(seq![left][0] == left);
        assert(seq![right][0] == right);
    }

    /// Two nodes over two terms each are equal exactly where both are.
    pub proof fn lemma_two(a: Term, b: Term, x: Term, y: Term)
        ensures
            (seq![a, b] == seq![x, y]) == (a == x && b == y),
    {
        assert(seq![a, b][0] == a && seq![a, b][1] == b);
        assert(seq![x, y][0] == x && seq![x, y][1] == y);
    }

    /// Two nodes over three terms each are equal exactly where all are.
    pub proof fn lemma_three(a: Term, b: Term, c: Term, x: Term, y: Term, z: Term)
        ensures
            (seq![a, b, c] == seq![x, y, z]) == (a == x && b == y && c == z),
    {
        assert(seq![a, b, c][0] == a && seq![a, b, c][1] == b && seq![a, b, c][2] == c);
        assert(seq![x, y, z][0] == x && seq![x, y, z][1] == y && seq![x, y, z][2] == z);
    }
}

/// Whether two byte strings are the same bytes.
pub fn same_bytes(left: &[u8], right: &[u8]) -> (r: bool)
    ensures
        r == (left@ == right@),
{
    if left.len() != right.len() {
        return false;
    }
    let mut i: usize = 0;
    while i < left.len()
        invariant
            i <= left.len(),
            left.len() == right.len(),
            forall|j: int| 0 <= j < i ==> left@[j] == right@[j],
        decreases left.len() - i,
    {
        if left[i] != right[i] {
            return false;
        }
        i = i + 1;
    }
    assert(left@ =~= right@);
    true
}

/// Whether two lists of identifiers are the same list.
pub fn same_ids(left: &[u64], right: &[u64]) -> (r: bool)
    ensures
        r == (left@ == right@),
{
    if left.len() != right.len() {
        return false;
    }
    let mut i: usize = 0;
    while i < left.len()
        invariant
            i <= left.len(),
            left.len() == right.len(),
            forall|j: int| 0 <= j < i ==> left@[j] == right@[j],
        decreases left.len() - i,
    {
        if left[i] != right[i] {
            return false;
        }
        i = i + 1;
    }
    assert(left@ =~= right@);
    true
}

/// A copy of a byte string.
pub fn copy_bytes(bytes: &[u8]) -> (r: Vec<u8>)
    ensures
        r@ == bytes@,
{
    let mut r: Vec<u8> = Vec::new();
    let mut i: usize = 0;
    while i < bytes.len()
        invariant
            i <= bytes.len(),
            r@ == bytes@.take(i as int),
        decreases bytes.len() - i,
    {
        r.push(bytes[i]);
        assert(bytes@.take(i as int).push(bytes@[i as int]) =~= bytes@.take(i as int + 1));
        i = i + 1;
    }
    assert(bytes@.take(i as int) =~= bytes@);
    r
}

/// A copy of a list of identifiers.
pub fn copy_ids(ids: &[u64]) -> (r: Vec<u64>)
    ensures
        r@ == ids@,
{
    let mut r: Vec<u64> = Vec::new();
    let mut i: usize = 0;
    while i < ids.len()
        invariant
            i <= ids.len(),
            r@ == ids@.take(i as int),
        decreases ids.len() - i,
    {
        r.push(ids[i]);
        assert(ids@.take(i as int).push(ids@[i as int]) =~= ids@.take(i as int + 1));
        i = i + 1;
    }
    assert(ids@.take(i as int) =~= ids@);
    r
}

} // verus!
