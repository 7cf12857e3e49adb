//! What a resource's own address grants: the entries a declaration folds
//! into it, and what each entry is about.
use vstd::prelude::*;

use crate::rule::Rule;
use crate::term::{same_bytes, Term};

verus! {

/// Whether a resource is a quantity or a set of instances.
#[derive(Clone, Copy, Debug, PartialEq, Eq, Structural)]
pub enum ResourceKind {
    /// A quantity.
    Fungible,
    /// Named instances.
    NonFungible,
}

/// What an entry of a resource governs.
#[derive(Clone, Copy, Debug, PartialEq, Eq, Structural)]
pub enum GrantedBehaviour {
    /// Bringing supply into existence.
    Mint,
    /// Taking supply out of existence.
    Burn,
    /// Moving it out of a holder's cell.
    Withdraw,
    /// Moving it into a holder's cell.
    Deposit,
    /// Raising a holder's halt flag.
    Freeze,
    /// Taking it from wherever a holder keeps it.
    Recall,
}

/// The cell a behaviour reaches under a prefix that is not the reacher's.
#[derive(Clone, Copy, Debug, PartialEq, Eq, Structural)]
pub enum ReachedCell {
    /// The holder's halt flag.
    Halt,
    /// Wherever the holder keeps the value.
    Holding,
}

impl GrantedBehaviour {
    /// The behaviour's place in the order entries are listed in.
    pub open spec fn rank(self) -> int {
        match self {
            GrantedBehaviour::Mint => 0,
            GrantedBehaviour::Burn => 1,
            GrantedBehaviour::Withdraw => 2,
            GrantedBehaviour::Deposit => 3,
            GrantedBehaviour::Freeze => 4,
            GrantedBehaviour::Recall => 5,
        }
    }

    /// The behaviour's place in the order entries are listed in.
    pub fn place(self) -> (r: u8)
        ensures
            r == self.rank(),
    {
        match self {
            GrantedBehaviour::Mint => 0,
            GrantedBehaviour::Burn => 1,
            GrantedBehaviour::Withdraw => 2,
            GrantedBehaviour::Deposit => 3,
            GrantedBehaviour::Freeze => 4,
            GrantedBehaviour::Recall => 5,
        }
    }

    /// What the behaviour is called.
    pub open spec fn label(self) -> Seq<char> {
        match self {
            GrantedBehaviour::Mint => "mint"@,
            GrantedBehaviour::Burn => "burn"@,
            GrantedBehaviour::Withdraw => "withdraw"@,
            GrantedBehaviour::Deposit => "deposit"@,
            GrantedBehaviour::Freeze => "freeze"@,
            GrantedBehaviour::Recall => "recall"@,
        }
    }

    /// What the behaviour is called.
    pub fn word(self) -> (r: &'static str)
        ensures
            r@ == self.label(),
    {
        match self {
            GrantedBehaviour::Mint => "mint",
            GrantedBehaviour::Burn => "burn",
            GrantedBehaviour::Withdraw => "withdraw",
            GrantedBehaviour::Deposit => "deposit",
            GrantedBehaviour::Freeze => "freeze",
            GrantedBehaviour::Recall => "recall",
        }
    }

    /// The cell the behaviour reaches, where it reaches one at all.
    pub open spec fn reached(self) -> Option<ReachedCell> {
        match self {
            GrantedBehaviour::Freeze => Some(ReachedCell::Halt),
            GrantedBehaviour::Recall => Some(ReachedCell::Holding),
            _ => None,
        }
    }

    /// The cell the behaviour reaches, where it reaches one at all.
    pub fn reaches(self) -> (r: Option<ReachedCell>)
        ensures
            r == self.reached(),
    {
        match self {
            GrantedBehaviour::Freeze => Some(ReachedCell::Halt),
            GrantedBehaviour::Recall => Some(ReachedCell::Holding),
            _ => None,
        }
    }

    /// Whether the entry asks about whoever acts, rather than about the
    /// party whose cell moves.
    pub open spec fn about_the_actor(self) -> bool {
        match self {
            GrantedBehaviour::Withdraw => false,
            GrantedBehaviour::Deposit => false,
            _ => true,
        }
    }

    /// Whether the entry asks about whoever acts, rather than about the
    /// party whose cell moves.
    pub fn asks_about_the_actor(self) -> (r: bool)
        ensures
            r == self.about_the_actor(),
    {
        match self {
            GrantedBehaviour::Withdraw => false,
            GrantedBehaviour::Deposit => false,
            _ => true,
        }
    }
}

/// Whom a granted rule names.
#[derive(Debug, PartialEq, Eq)]
pub enum GrantSubject {
    /// The issuing instance itself.
    SelfAddr,
    /// Whatever a configuration field names.
    Config(u32),
    /// A badge the issuer derives, and the entries its address folds.
    SelfBadge {
        /// The badge's mark.
        mark: Vec<u8>,
        /// What the badge is.
        kind: ResourceKind,
        /// The entries the badge itself grants.
        rules: GrantsExpr,
    },
    /// One instance of a badge the issuer derives.
    SelfInstance {
        /// The badge's mark.
        mark: Vec<u8>,
        /// The instance.
        id: u64,
        /// The entries the badge itself grants.
        rules: GrantsExpr,
    },
}

/// The rule one entry grants under.
pub type GrantRuleExpr = Rule<GrantSubject>;

/// The entries a declaration grants, at most one for each behaviour and
/// listed in the behaviours' own order.
#[derive(Debug, PartialEq, Eq)]
pub struct GrantsExpr {
    /// The entries, in order.
    pub entries: Vec<(GrantedBehaviour, GrantRuleExpr)>,
}

impl ResourceKind {
    /// The kind as a number.
    pub open spec fn number(self) -> int {
        match self {
            ResourceKind::Fungible => 0,
            ResourceKind::NonFungible => 1,
        }
    }
}

impl GrantSubject {
    /// The subject as a term.
    pub open spec fn term(self) -> Term
        decreases self,
    {
        match self {
            GrantSubject::SelfAddr => Term::Scalar(0, 0),
            GrantSubject::Config(field) => Term::Scalar(1, field as int),
            GrantSubject::SelfBadge { mark, kind, rules } => Term::Node(
                2,
                seq![Term::Bytes(0, mark@), Term::Scalar(0, kind.number()), rules.term()],
            ),
            GrantSubject::SelfInstance { mark, id, rules } => Term::Node(
                3,
                seq![Term::Bytes(0, mark@), Term::Scalar(0, id as int), rules.term()],
            ),
        }
    }

    /// A granted rule as a term.
    pub open spec fn rule_term(rule: GrantRuleExpr) -> Term
        decreases rule,
    {
        match rule {
            Rule::Require(subject) => Term::Node(0, seq![subject.term()]),
            Rule::CountOf { count, rules } => Term::Node(
                1,
                seq![Term::Scalar(0, count as int), Term::Node(0, GrantSubject::rule_terms(rules@))],
            ),
        }
    }

    /// The terms of a run of granted rules, in order.
    pub open spec fn rule_terms(rules: Seq<GrantRuleExpr>) -> Seq<Term>
        decreases rules,
    {
        Seq::new(
            rules.len(),
            |i: int|
                if 0 <= i < rules.len() {
                    GrantSubject::rule_term(rules[i])
                } else {
                    Term::nothing()
                },
        )
    }
}

impl GrantsExpr {
    /// The entries, in the order they are listed.
    pub open spec fn listed(self) -> Seq<(GrantedBehaviour, GrantRuleExpr)> {
        self.entries@
    }

    /// The entries as a term.
    pub open spec fn term(self) -> Term
        decreases self,
    {
        Term::Node(0, GrantsExpr::entry_terms(self.entries@))
    }

    /// The terms of a run of entries, in order.
    pub open spec fn entry_terms(entries: Seq<(GrantedBehaviour, GrantRuleExpr)>) -> Seq<Term>
        decreases entries,
    {
        Seq::new(
            entries.len(),
            |i: int|
                if 0 <= i < entries.len() {
                    Term::Node(
                        0,
                        seq![
                            Term::Scalar(0, entries[i].0.rank()),
                            GrantSubject::rule_term(entries[i].1),
                        ],
                    )
                } else {
                    Term::nothing()
                },
        )
    }
}

impl GrantsExpr {
    /// The rule granted for `behaviour`, where there is an entry for it.
    pub open spec fn granted(self, behaviour: GrantedBehaviour) -> Option<GrantRuleExpr> {
        GrantsExpr::entry_of(self.listed(), behaviour)
    }

    /// The rule a run of entries gives first for `behaviour`.
    pub open spec fn entry_of(
        entries: Seq<(GrantedBehaviour, GrantRuleExpr)>,
        behaviour: GrantedBehaviour,
    ) -> Option<GrantRuleExpr>
        decreases entries.len(),
    {
        if entries.len() == 0 {
            None
        } else if entries[0].0 == behaviour {
            Some(entries[0].1)
        } else {
            GrantsExpr::entry_of(entries.skip(1), behaviour)
        }
    }

    /// Whether the entries stand in the behaviours' own order, at most one
    /// for each.
    pub open spec fn in_order(self) -> bool {
        forall|i: int, j: int|
            0 <= i < j < self.listed().len() ==> (#[trigger] self.listed()[i]).0.rank() < (
            #[trigger] self.listed()[j]).0.rank()
    }

    /// Where a run of entries first speaks of a behaviour is what it
    /// grants for it.
    proof fn lemma_entry_at(
        entries: Seq<(GrantedBehaviour, GrantRuleExpr)>,
        behaviour: GrantedBehaviour,
        at: int,
    )
        requires
            0 <= at < entries.len(),
            entries[at].0 == behaviour,
            forall|i: int| 0 <= i < at ==> (#[trigger] entries[i]).0 != behaviour,
        ensures
            GrantsExpr::entry_of(entries, behaviour) == Some(entries[at].1),
        decreases at,
    {
        if at > 0 {
            assert(entries[0].0 != behaviour);
            let rest = entries.skip(1);
            assert forall|i: int| 0 <= i < at - 1 implies (#[trigger] rest[i]).0 != behaviour by {
                assert(rest[i] == entries[i + 1]);
            }
            GrantsExpr::lemma_entry_at(rest, behaviour, at - 1);
        }
    }

    /// A run of entries that never speaks of a behaviour grants nothing
    /// for it.
    proof fn lemma_no_entry(
        entries: Seq<(GrantedBehaviour, GrantRuleExpr)>,
        behaviour: GrantedBehaviour,
    )
        requires
            forall|i: int| 0 <= i < entries.len() ==> (#[trigger] entries[i]).0 != behaviour,
        ensures
            GrantsExpr::entry_of(entries, behaviour) is None,
        decreases entries.len(),
    {
        if entries.len() > 0 {
            assert(entries[0].0 != behaviour);
            let rest = entries.skip(1);
            assert forall|i: int| 0 <= i < rest.len() implies (#[trigger] rest[i]).0
                != behaviour by {
                assert(rest[i] == entries[i + 1]);
            }
            GrantsExpr::lemma_no_entry(rest, behaviour);
        }
    }

    /// Grants of nothing.
    pub fn new() -> (r: Self)
        ensures
            r.listed().len() == 0,
            r.in_order(),
    {
        GrantsExpr { entries: Vec::new() }
    }

    /// How many entries there are.
    pub fn len(&self) -> (r: usize)
        ensures
            r == self.listed().len(),
    {
        self.entries.len()
    }

    /// Whether nothing is granted.
    pub fn is_empty(&self) -> (r: bool)
        ensures
            r == (self.listed().len() == 0),
    {
        self.entries.len() == 0
    }

    /// The behaviour the `index`-th entry is for.
    pub fn behaviour(&self, index: usize) -> (r: GrantedBehaviour)
        requires
            index < self.listed().len(),
        ensures
            r == self.listed()[index as int].0,
    {
        self.entries[index].0
    }

    /// The rule the `index`-th entry grants under.
    pub fn rule(&self, index: usize) -> (r: &GrantRuleExpr)
        requires
            index < self.listed().len(),
        ensures
            *r == self.listed()[index as int].1,
    {
        &self.entries[index].1
    }

    /// The rule granted for `behaviour`, where there is an entry for it.
    pub fn get(&self, behaviour: GrantedBehaviour) -> (r: Option<&GrantRuleExpr>)
        ensures
            match r {
                Some(rule) => self.granted(behaviour) == Some(*rule),
                None => self.granted(behaviour) is None,
            },
    {
        let mut i: usize = 0;
        while i < self.entries.len()
            invariant
                i <= self.entries.len(),
                forall|j: int| 0 <= j < i ==> (#[trigger] self.entries@[j]).0 != behaviour,
            decreases self.entries.len() - i,
        {
            if self.entries[i].0 == behaviour {
                proof {
                    GrantsExpr::lemma_entry_at(self.entries@, behaviour, i as int);
                }
                return Some(&self.entries[i].1);
            }
            i = i + 1;
        }
        proof {
            GrantsExpr::lemma_no_entry(self.entries@, behaviour);
        }
        None
    }

    /// Grant `rule` for `behaviour`, in place of any entry already there.
    pub fn set(&mut self, behaviour: GrantedBehaviour, rule: GrantRuleExpr)
        requires
            old(self).in_order(),
        ensures
            final(self).in_order(),
            final(self).granted(behaviour) == Some(rule),
            forall|other: GrantedBehaviour|
                other != behaviour ==> #[trigger] final(self).granted(other) == old(self).granted(
                    other,
                ),
    {
        let ghost before = self.entries@;
        let mut at: usize = 0;
        while at < self.entries.len() && self.entries[at].0.place() < behaviour.place()
            invariant
                at <= self.entries.len(),
                self.entries@ == before,
                forall|j: int|
                    0 <= j < at ==> (#[trigger] before[j]).0.rank() < behaviour.rank(),
            decreases self.entries.len() - at,
        {
            at = at + 1;
        }
        let stands = at < self.entries.len() && self.entries[at].0 == behaviour;
        if stands {
            self.entries.remove(at);
        }
        self.entries.insert(at, (behaviour, rule));
        proof {
            let after = self.entries@;
            let shift: int = if stands {
                0
            } else {
                1
            };
            assert(after[at as int] == (behaviour, rule));
            assert(forall|j: int| 0 <= j < at ==> #[trigger] after[j] == before[j]);
            assert(forall|j: int|
                at < j < after.len() ==> #[trigger] after[j] == before[j - shift]);
            assert forall|j: int| at <= j < before.len() && (!stands || j > at) implies (
            #[trigger] before[j]).0.rank() > behaviour.rank() by {
                if j > at {
                    assert(old(self).listed()[at as int].0.rank() < old(
                        self,
                    ).listed()[j].0.rank());
                }
            }
            assert forall|i: int, j: int| 0 <= i < j < after.len() implies (
            #[trigger] after[i]).0.rank() < (#[trigger] after[j]).0.rank() by {
                if i < at && j < at {
                    assert(old(self).listed()[i].0.rank() < old(self).listed()[j].0.rank());
                } else if i > at {
                    assert(old(self).listed()[i - shift].0.rank() < old(
                        self,
                    ).listed()[j - shift].0.rank());
                } else if j > at {
                    assert(before[j - shift].0.rank() > behaviour.rank());
                }
            }
            GrantsExpr::lemma_entry_at(after, behaviour, at as int);
            assert forall|other: GrantedBehaviour| other != behaviour implies #[trigger] self.granted(
                other,
            ) == old(self).granted(other) by {
                if exists|k: int| 0 <= k < before.len() && (#[trigger] before[k]).0 == other {
                    let k = choose|k: int| 0 <= k < before.len() && (#[trigger] before[k]).0 == other;
                    assert(forall|i: int|
                        0 <= i < k ==> (#[trigger] old(self).listed()[i]).0.rank() < old(
                            self,
                        ).listed()[k].0.rank());
                    GrantsExpr::lemma_entry_at(before, other, k);
                    let moved = if k < at {
                        k
                    } else {
                        k + shift
                    };
                    assert(after[moved] == before[k]);
                    assert(forall|i: int|
                        0 <= i < moved ==> (#[trigger] self.listed()[i]).0.rank()
                            < self.listed()[moved].0.rank());
                    GrantsExpr::lemma_entry_at(after, other, moved);
                } else {
                    GrantsExpr::lemma_no_entry(before, other);
                    assert forall|i: int| 0 <= i < after.len() implies (#[trigger] after[i]).0
                        != other by {
                        if i < at {
                            assert(before[i].0 != other);
                        } else if i > at {
                            assert(before[i - shift].0 != other);
                        }
                    }
                    GrantsExpr::lemma_no_entry(after, other);
                }
            }
        }
    }

    /// Whether two sets of grants are the same grants.
    pub fn same(&self, other: &GrantsExpr) -> (r: bool)
        ensures
            r == (self.term() == other.term()),
        decreases self,
    {
        let ghost left = GrantsExpr::entry_terms(self.entries@);
        let ghost right = GrantsExpr::entry_terms(other.entries@);
        if self.entries.len() != other.entries.len() {
            assert(left.len() != right.len());
            return false;
        }
        let mut i: usize = 0;
        while i < self.entries.len()
            invariant
                i <= self.entries.len(),
                self.entries.len() == other.entries.len(),
                left == GrantsExpr::entry_terms(self.entries@),
                right == GrantsExpr::entry_terms(other.entries@),
                forall|j: int| 0 <= j < i ==> left[j] == right[j],
            decreases self.entries.len() - i,
        {
            let one = &self.entries[i];
            let two = &other.entries[i];
            proof {
                Term::lemma_two(
                    Term::Scalar(0, one.0.rank()),
                    GrantSubject::rule_term(one.1),
                    Term::Scalar(0, two.0.rank()),
                    GrantSubject::rule_term(two.1),
                );
            }
            if one.0 != two.0 || !GrantSubject::same_rule(&one.1, &two.1) {
                assert(left[i as int] != right[i as int]);
                return false;
            }
            i = i + 1;
        }
        assert(left =~= right);
        true
    }
}

impl GrantSubject {
    /// Whether two subjects are the same subject.
    pub fn same(&self, other: &GrantSubject) -> (r: bool)
        ensures
            r == (self.term() == other.term()),
        decreases self,
    {
        match (self, other) {
            (GrantSubject::SelfAddr, GrantSubject::SelfAddr) => true,
            (GrantSubject::Config(left), GrantSubject::Config(right)) => *left == *right,
            (
                GrantSubject::SelfBadge { mark, kind, rules },
                GrantSubject::SelfBadge { mark: named, kind: held, rules: granted },
            ) => {
                proof {
                    Term::lemma_three(
                        Term::Bytes(0, mark@),
                        Term::Scalar(0, kind.number()),
                        rules.term(),
                        Term::Bytes(0, named@),
                        Term::Scalar(0, held.number()),
                        granted.term(),
                    );
                }
                same_bytes(mark.as_slice(), named.as_slice()) && *kind == *held && rules.same(
                    granted,
                )
            },
            (
                GrantSubject::SelfInstance { mark, id, rules },
                GrantSubject::SelfInstance { mark: named, id: held, rules: granted },
            ) => {
                proof {
                    Term::lemma_three(
                        Term::Bytes(0, mark@),
                        Term::Scalar(0, *id as int),
                        rules.term(),
                        Term::Bytes(0, named@),
                        Term::Scalar(0, *held as int),
                        granted.term(),
                    );
                }
                same_bytes(mark.as_slice(), named.as_slice()) && *id == *held && rules.same(
                    granted,
                )
            },
            _ => false,
        }
    }

    /// Whether two granted rules are the same rule.
    pub fn same_rule(left: &GrantRuleExpr, right: &GrantRuleExpr) -> (r: bool)
        ensures
            r == (GrantSubject::rule_term(*left) == GrantSubject::rule_term(*right)),
        decreases left,
    {
        match (left, right) {
            (Rule::Require(one), Rule::Require(two)) => {
                proof {
                    Term::lemma_one(one.term(), two.term());
                }
                one.same(two)
            },
            (
                Rule::CountOf { count, rules },
                Rule::CountOf { count: wanted, rules: branches },
            ) => {
                let ghost here = GrantSubject::rule_terms(rules@);
                let ghost there = GrantSubject::rule_terms(branches@);
                proof {
                    Term::lemma_two(
                        Term::Scalar(0, *count as int),
                        Term::Node(0, here),
                        Term::Scalar(0, *wanted as int),
                        Term::Node(0, there),
                    );
                }
                if *count != *wanted {
                    return false;
                }
                if rules.len() != branches.len() {
                    assert(here.len() != there.len());
                    return false;
                }
                let mut i: usize = 0;
                while i < rules.len()
                    invariant
                        i <= rules.len(),
                        rules.len() == branches.len(),
                        here == GrantSubject::rule_terms(rules@),
                        there == GrantSubject::rule_terms(branches@),
                        forall|j: int| 0 <= j < i ==> here[j] == there[j],
                        *left matches Rule::CountOf { rules: held, .. } && held == *rules,
                        GrantSubject::rule_term(*left) == GrantSubject::rule_term(*right) ==> here
                            == there,
                    decreases rules.len() - i,
                {
                    if !GrantSubject::same_rule(&rules[i], &branches[i]) {
                        assert(here[i as int] != there[i as int]);
                        return false;
                    }
                    i = i + 1;
                }
                assert(here =~= there);
                true
            },
            _ => {
                proof {
                    match left {
                        Rule::Require(_) => {},
                        Rule::CountOf { .. } => {},
                    }
                }
                false
            },
        }
    }
}

} // verus!
