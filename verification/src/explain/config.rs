//! The configuration a resource's declared grants read.
use vstd::prelude::*;

use crate::resource::{GrantRuleExpr, GrantSubject, GrantsExpr};
use crate::rule::Rule;

verus! {

/// Whether a subject reads a configuration field: itself, or through the
/// rules folded into a badge's address.
pub open spec fn subject_reads(subject: GrantSubject, field: u32) -> bool
    decreases subject,
{
    match subject {
        GrantSubject::Config(slot) => slot == field,
        GrantSubject::SelfBadge { rules, .. } => grants_read(rules, field),
        GrantSubject::SelfInstance { rules, .. } => grants_read(rules, field),
        GrantSubject::SelfAddr => false,
    }
}

/// Whether a granted rule reads a configuration field.
pub open spec fn rule_reads(rule: GrantRuleExpr, field: u32) -> bool
    decreases rule,
{
    match rule {
        Rule::Require(subject) => subject_reads(subject, field),
        Rule::CountOf { rules, .. } => exists|i: int|
            0 <= i < rules@.len() && rule_reads(#[trigger] rules@[i], field),
    }
}

/// Whether grants read a configuration field.
pub open spec fn grants_read(grants: GrantsExpr, field: u32) -> bool
    decreases grants,
{
    exists|i: int|
        0 <= i < grants.entries@.len() && rule_reads(
            (#[trigger] grants.entries@[i]).1,
            field,
        )
}

/// Whether numbers stand in ascending order, none of them twice.
pub open spec fn ascending(numbers: Seq<u32>) -> bool {
    forall|i: int, j: int| 0 <= i < j < numbers.len() ==> numbers[i] < numbers[j]
}

/// Add a number in its place, and once.
fn include_number(into: &mut Vec<u32>, number: u32)
    requires
        ascending(old(into)@),
    ensures
        ascending(final(into)@),
        forall|other: u32|
            #[trigger] final(into)@.contains(other) == (old(into)@.contains(other) || other
                == number),
{
    let ghost before = into@;
    let mut at: usize = 0;
    while at < into.len() && into[at] < number
        invariant
            at <= into.len(),
            into@ == before,
            ascending(before),
            forall|i: int| 0 <= i < at ==> before[i] < number,
        decreases into.len() - at,
    {
        at = at + 1;
    }
    if at < into.len() && into[at] == number {
        assert(before[at as int] == number);
        return;
    }
    into.insert(at, number);
    proof {
        let after = into@;
        assert(after[at as int] == number);
        assert forall|other: u32| #[trigger] after.contains(other) == (before.contains(other)
            || other == number) by {
            if before.contains(other) {
                let k = choose|k: int| 0 <= k < before.len() && before[k] == other;
                assert(after[if k < at {
                    k
                } else {
                    k + 1
                }] == other);
            }
            if after.contains(other) && other != number {
                let k = choose|k: int| 0 <= k < after.len() && after[k] == other;
                assert(before[if k < at {
                    k
                } else {
                    k - 1
                }] == other);
            }
        }
    }
}

/// Add every configuration field a granted rule reads.
fn rule_fields(rule: &GrantRuleExpr, into: &mut Vec<u32>)
    requires
        ascending(old(into)@),
    ensures
        ascending(final(into)@),
        forall|field: u32|
            #[trigger] final(into)@.contains(field) == (old(into)@.contains(field) || rule_reads(
                *rule,
                field,
            )),
    decreases rule,
{
    proof {
        reveal_with_fuel(rule_reads, 3);
        reveal_with_fuel(subject_reads, 3);
    }
    match rule {
        Rule::Require(claim) => match claim {
            GrantSubject::Config(slot) => include_number(into, *slot),
            // A badge's own rules are folded into its address, so a field
            // they read is a field this set reads.
            GrantSubject::SelfBadge { rules, .. } => grant_fields(rules, into),
            GrantSubject::SelfInstance { rules, .. } => grant_fields(rules, into),
            GrantSubject::SelfAddr => {},
        },
        Rule::CountOf { rules, .. } => {
            let ghost before = into@;
            let mut i: usize = 0;
            while i < rules.len()
                invariant
                    i <= rules.len(),
                    *rule matches Rule::CountOf { rules: held, .. } && held == *rules,
                    ascending(into@),
                    forall|field: u32|
                        #[trigger] into@.contains(field) == (before.contains(field) || exists|
                            j: int,
                        |
                            0 <= j < i && rule_reads(#[trigger] rules@[j], field)),
                decreases rules.len() - i,
            {
                let ghost so_far = into@;
                rule_fields(&rules[i], into);
                proof {
                    assert forall|field: u32| #[trigger] into@.contains(field) == (
                    before.contains(field) || exists|j: int|
                        0 <= j < i + 1 && rule_reads(#[trigger] rules@[j], field)) by {
                        assert(into@.contains(field) == (so_far.contains(field) || rule_reads(
                            rules@[i as int],
                            field,
                        )));
                    }
                }
                i = i + 1;
            }
        },
    }
}

/// Add every configuration field grants read.
fn grant_fields(grants: &GrantsExpr, into: &mut Vec<u32>)
    requires
        ascending(old(into)@),
    ensures
        ascending(final(into)@),
        forall|field: u32|
            #[trigger] final(into)@.contains(field) == (old(into)@.contains(field) || grants_read(
                *grants,
                field,
            )),
    decreases grants,
{
    let ghost before = into@;
    let mut i: usize = 0;
    while i < grants.entries.len()
        invariant
            i <= grants.entries.len(),
            ascending(into@),
            forall|field: u32|
                #[trigger] into@.contains(field) == (before.contains(field) || exists|j: int|
                    0 <= j < i && rule_reads((#[trigger] grants.entries@[j]).1, field)),
        decreases grants.entries.len() - i,
    {
        let ghost so_far = into@;
        rule_fields(&grants.entries[i].1, into);
        proof {
            assert forall|field: u32| #[trigger] into@.contains(field) == (before.contains(field)
                || exists|j: int|
                0 <= j < i + 1 && rule_reads((#[trigger] grants.entries@[j]).1, field)) by {
                assert(into@.contains(field) == (so_far.contains(field) || rule_reads(
                    grants.entries@[i as int].1,
                    field,
                )));
            }
        }
        i = i + 1;
    }
}

/// Every configuration field a resource's declared grants read, in order.
///
/// What an author has to supply before a declaration can be sealed into
/// the record a holder reads. A grant naming no field seals against
/// nothing and is exact as written; one naming a field is a question only
/// an instance answers, and this says which question.
pub fn grants_read_config(grants: &GrantsExpr) -> (r: Vec<u32>)
    ensures
        ascending(r@),
        forall|field: u32| #[trigger] r@.contains(field) == grants_read(*grants, field),
{
    let mut read: Vec<u32> = Vec::new();
    grant_fields(grants, &mut read);
    read
}

} // verus!
