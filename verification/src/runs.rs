//! Runs spliced one after the other.
use vstd::prelude::*;

verus! {

/// Runs one after the other.
pub open spec fn spliced<T>(parts: Seq<Seq<T>>) -> Seq<T>
    decreases parts.len(),
{
    if parts.len() == 0 {
        Seq::empty()
    } else {
        spliced(parts.drop_last()) + parts.last()
    }
}

/// One more run, spliced on.
pub proof fn lemma_one_more<T>(parts: Seq<Seq<T>>, i: int)
    requires
        0 <= i < parts.len(),
    ensures
        spliced(parts.take(i + 1)) == spliced(parts.take(i)) + parts[i],
{
    assert(parts.take(i + 1).drop_last() =~= parts.take(i));
    assert(parts.take(i + 1).last() == parts[i]);
}

/// A value that may not be there, as a run of none or one.
pub open spec fn at_most_one<T>(value: Option<T>) -> Seq<T> {
    match value {
        Some(held) => seq![held],
        None => Seq::empty(),
    }
}

} // verus!
