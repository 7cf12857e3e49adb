//! Verdicts reached one judgment after another, the first refusal
//! standing.
use vstd::prelude::*;

verus! {

/// The verdict of judgments made in order: the refusal met first, or
/// acceptance where none refused.
pub open spec fn first_refusal<E>(verdicts: Seq<Result<(), E>>) -> Result<(), E>
    decreases verdicts.len(),
{
    if verdicts.len() == 0 {
        Ok(())
    } else {
        followed_by(first_refusal(verdicts.drop_last()), verdicts.last())
    }
}

/// The verdict of one judgment and then another.
pub open spec fn followed_by<E>(before: Result<(), E>, after: Result<(), E>) -> Result<(), E> {
    match before {
        Ok(_) => after,
        Err(refusal) => Err(refusal),
    }
}

/// There is one acceptance.
pub proof fn lemma_one_acceptance<E>(verdict: Result<(), E>)
    ensures
        verdict is Ok ==> verdict == Ok::<(), E>(()),
{
    match verdict {
        Ok(unit) => {
            assert(unit == ());
        },
        Err(_) => {},
    }
}

/// A refusal reached among the first judgments is the verdict of them all.
pub proof fn lemma_refused_early<E>(verdicts: Seq<Result<(), E>>, taken: int)
    requires
        0 <= taken <= verdicts.len(),
        first_refusal(verdicts.take(taken)) is Err,
    ensures
        first_refusal(verdicts) == first_refusal(verdicts.take(taken)),
    decreases verdicts.len() - taken,
{
    if taken < verdicts.len() {
        assert(verdicts.take(taken + 1).drop_last() =~= verdicts.take(taken));
        lemma_refused_early(verdicts, taken + 1);
    } else {
        assert(verdicts.take(taken) =~= verdicts);
    }
}

/// One more judgment accepted leaves the verdict so far standing.
pub proof fn lemma_one_more<E>(verdicts: Seq<Result<(), E>>, taken: int)
    requires
        0 <= taken < verdicts.len(),
    ensures
        first_refusal(verdicts.take(taken + 1)) == followed_by(
            first_refusal(verdicts.take(taken)),
            verdicts[taken],
        ),
        first_refusal(verdicts.take(taken)) is Ok && verdicts[taken] is Err
            ==> first_refusal(verdicts) == verdicts[taken],
{
    assert(verdicts.take(taken + 1).drop_last() =~= verdicts.take(taken));
    if first_refusal(verdicts.take(taken)) is Ok && verdicts[taken] is Err {
        lemma_refused_early(verdicts, taken + 1);
    }
}

/// Every judgment taken together is the judgments themselves.
pub proof fn lemma_all<E>(verdicts: Seq<Result<(), E>>)
    ensures
        first_refusal(verdicts.take(verdicts.len() as int)) == first_refusal(verdicts),
        first_refusal(verdicts.take(0)) is Ok,
        first_refusal(verdicts) is Ok ==> first_refusal(verdicts) == Ok::<(), E>(()),
{
    lemma_one_acceptance(first_refusal(verdicts));
    assert(verdicts.take(verdicts.len() as int) =~= verdicts);
}

/// Judgments made in order are accepted exactly where each one is.
pub proof fn lemma_accepted<E>(verdicts: Seq<Result<(), E>>)
    ensures
        first_refusal(verdicts) is Ok == (forall|i: int|
            0 <= i < verdicts.len() ==> #[trigger] verdicts[i] is Ok),
    decreases verdicts.len(),
{
    if verdicts.len() > 0 {
        let before = verdicts.drop_last();
        lemma_accepted(before);
        if first_refusal(verdicts) is Ok {
            assert forall|i: int| 0 <= i < verdicts.len() implies #[trigger] verdicts[i] is Ok by {
                if i < before.len() {
                    assert(before[i] == verdicts[i]);
                }
            }
        } else if forall|i: int| 0 <= i < verdicts.len() ==> #[trigger] verdicts[i] is Ok {
            assert forall|i: int| 0 <= i < before.len() implies #[trigger] before[i] is Ok by {
                assert(before[i] == verdicts[i]);
            }
            assert(verdicts.last() == verdicts[verdicts.len() - 1]);
        }
    }
}

/// A place in a list, as the number a refusal carries it in: the place
/// itself, or the greatest there is for one past it.
pub open spec fn position(place: nat) -> u32 {
    if place <= u32::MAX {
        place as u32
    } else {
        u32::MAX
    }
}

/// A place in a list, as the number a refusal carries it in.
pub fn position_of(place: usize) -> (r: u32)
    ensures
        r == position(place as nat),
{
    if place <= u32::MAX as usize {
        place as u32
    } else {
        u32::MAX
    }
}

} // verus!
