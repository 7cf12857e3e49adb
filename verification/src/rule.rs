//! Rules: a threshold over leaves, and where a rule's verdict lands.
use vstd::prelude::*;

verus! {

/// How deep a rule may nest: a rule standing alone is at depth zero, and
/// nothing stands at this depth.
pub const MAX_RULE_DEPTH: usize = 4;

/// The most branches one threshold may hold.
pub const MAX_RULE_BRANCHES: usize = 16;

/// The most leaves one granted rule may seal as.
pub const MAX_RULE_LEAVES: usize = 64;

/// A rule: one leaf, or a threshold over rules.
#[derive(Debug, PartialEq, Eq)]
pub enum Rule<L> {
    /// One leaf, which must hold.
    Require(L),
    /// At least this many of these rules must hold.
    CountOf {
        /// How many.
        count: u32,
        /// Of which.
        rules: Vec<Rule<L>>,
    },
}

/// The stage a rule's verdict lands at.
#[derive(Clone, Copy, Debug, PartialEq, Eq, Structural)]
pub enum Judged {
    /// Before it is a transaction, from what the call presents.
    AtAdmission,
    /// Before any body runs, from committed state.
    AtMaterialization,
    /// Inside the declaring node's own leg.
    InTheLeg,
}

impl Judged {
    /// Whether the verdict lands before anything commits.
    pub open spec fn is_before_any_leg(self) -> bool {
        self != Judged::InTheLeg
    }

    /// Whether the verdict lands before anything commits.
    pub fn before_any_leg(self) -> (r: bool)
        ensures
            r == self.is_before_any_leg(),
    {
        match self {
            Judged::AtAdmission => true,
            Judged::AtMaterialization => true,
            Judged::InTheLeg => false,
        }
    }
}

/// A leaf whose answer is found at one stage.
pub trait Leaf: Sized {
    /// The earliest stage that can answer the leaf.
    spec fn stage(self) -> Judged;

    /// The earliest stage that can answer the leaf.
    fn judged(&self) -> (r: Judged)
        ensures
            r == self.stage(),
    ;
}

/// The rule that asks nothing.
pub fn always<L>() -> (r: Rule<L>)
    ensures
        r.is_always(),
{
    Rule::CountOf { count: 0, rules: Vec::new() }
}

/// The rule nothing satisfies.
pub fn never<L>() -> (r: Rule<L>)
    ensures
        r.is_never(),
{
    Rule::CountOf { count: 1, rules: Vec::new() }
}

impl<L> Rule<L> {
    /// Whether this is the rule that asks nothing.
    pub open spec fn is_always(self) -> bool {
        self matches Rule::CountOf { count, rules } && count == 0 && rules@.len() == 0
    }

    /// Whether this is the rule nothing satisfies.
    pub open spec fn is_never(self) -> bool {
        self matches Rule::CountOf { count, rules } && count == 1 && rules@.len() == 0
    }

    /// Whether this is the rule that asks nothing.
    pub fn says_always(&self) -> (r: bool)
        ensures
            r == self.is_always(),
    {
        match self {
            Rule::CountOf { count, rules } => *count == 0 && rules.len() == 0,
            Rule::Require(_) => false,
        }
    }

    /// Whether this is the rule nothing satisfies.
    pub fn says_never(&self) -> (r: bool)
        ensures
            r == self.is_never(),
    {
        match self {
            Rule::CountOf { count, rules } => *count == 1 && rules.len() == 0,
            Rule::Require(_) => false,
        }
    }

    /// The leaves a rule holds, left to right.
    pub open spec fn all_leaves(self) -> Seq<L>
        decreases self,
    {
        match self {
            Rule::Require(leaf) => seq![leaf],
            Rule::CountOf { rules, .. } => Rule::leaves_of(rules@),
        }
    }

    /// The leaves a run of rules holds, left to right.
    pub open spec fn leaves_of(rules: Seq<Rule<L>>) -> Seq<L>
        decreases rules,
    {
        if rules.len() == 0 {
            Seq::empty()
        } else {
            Rule::leaves_of(rules.drop_last()) + rules.last().all_leaves()
        }
    }

    /// The leaves a rule holds, left to right.
    pub fn leaves(&self) -> (r: Vec<&L>)
        ensures
            r@.unref() == self.all_leaves(),
    {
        let mut r: Vec<&L> = Vec::new();
        self.push_leaves(&mut r);
        assert(r@.unref() =~= self.all_leaves());
        r
    }

    /// Append the leaves a rule holds, left to right.
    fn push_leaves<'a>(&'a self, into: &mut Vec<&'a L>)
        ensures
            final(into)@.unref() == old(into)@.unref() + self.all_leaves(),
        decreases self,
    {
        match self {
            Rule::Require(leaf) => {
                into.push(leaf);
                assert(into@.unref() =~= old(into)@.unref() + seq![*leaf]);
            },
            Rule::CountOf { rules, .. } => {
                let ghost start = into@.unref();
                let mut i: usize = 0;
                assert(start + Rule::leaves_of(rules@.take(0)) =~= start);
                while i < rules.len()
                    invariant
                        i <= rules.len(),
                        into@.unref() == start + Rule::leaves_of(rules@.take(i as int)),
                        *self matches Rule::CountOf { rules: held, .. } && held == *rules,
                    decreases rules.len() - i,
                {
                    let ghost listed = Rule::leaves_of(rules@.take(i as int));
                    rules[i].push_leaves(into);
                    proof {
                        let longer = rules@.take(i as int + 1);
                        assert(longer.drop_last() =~= rules@.take(i as int));
                        assert(longer.last() == rules@[i as int]);
                        let fresh = rules@[i as int].all_leaves();
                        assert(start + listed + fresh =~= start + (listed + fresh));
                    }
                    i = i + 1;
                }
                assert(rules@.take(i as int) =~= rules@);
            },
        }
    }

    /// Whether a rule standing at `depth` is inside the caps a stored rule
    /// is read under: it nests no deeper than it may, no threshold
    /// branches wider, and every threshold over something is one some but
    /// not every choice of its branches meets. The two constants stand
    /// over nothing.
    pub open spec fn is_within_caps(self, depth: nat) -> bool
        decreases self,
    {
        &&& depth < MAX_RULE_DEPTH
        &&& match self {
            Rule::Require(_) => true,
            Rule::CountOf { count, rules } => {
                &&& rules@.len() <= MAX_RULE_BRANCHES
                &&& if rules@.len() == 0 {
                    count <= 1
                } else {
                    1 <= count <= rules@.len()
                }
                &&& forall|i: int|
                    0 <= i < rules@.len() ==> (#[trigger] rules@[i]).is_within_caps(depth + 1)
            },
        }
    }

    /// Whether a rule standing at `depth` is inside the caps a stored rule
    /// is read under.
    pub fn within_caps(&self, depth: usize) -> (r: bool)
        ensures
            r == self.is_within_caps(depth as nat),
        decreases self,
    {
        if depth >= MAX_RULE_DEPTH {
            return false;
        }
        match self {
            Rule::Require(_) => true,
            Rule::CountOf { count, rules } => {
                if rules.len() > MAX_RULE_BRANCHES {
                    return false;
                }
                if rules.len() == 0 {
                    return *count <= 1;
                }
                if *count == 0 || *count as usize > rules.len() {
                    return false;
                }
                let mut i: usize = 0;
                while i < rules.len()
                    invariant
                        i <= rules.len(),
                        depth < MAX_RULE_DEPTH,
                        forall|j: int|
                            0 <= j < i ==> (#[trigger] rules@[j]).is_within_caps(
                                (depth + 1) as nat,
                            ),
                        *self matches Rule::CountOf { rules: held, .. } && held == *rules,
                    decreases rules.len() - i,
                {
                    if !rules[i].within_caps(depth + 1) {
                        assert(!rules@[i as int].is_within_caps((depth + 1) as nat));
                        return false;
                    }
                    i = i + 1;
                }
                true
            },
        }
    }
}

impl<L: Leaf> Rule<L> {
    /// The earliest stage that can answer every leaf a rule holds: the one
    /// stage its leaves share, admission for a rule holding none, and the
    /// leg for a mixture, which no earlier stage can answer whole.
    pub open spec fn stage(self) -> Judged {
        let leaves = self.all_leaves();
        if leaves.len() == 0 {
            Judged::AtAdmission
        } else if forall|i: int|
            0 <= i < leaves.len() ==> (#[trigger] leaves[i]).stage() == leaves[0].stage() {
            leaves[0].stage()
        } else {
            Judged::InTheLeg
        }
    }

    /// The earliest stage that can answer every leaf a rule holds.
    pub fn judged(&self) -> (r: Judged)
        ensures
            r == self.stage(),
    {
        let leaves: Vec<&L> = self.leaves();
        if leaves.len() == 0 {
            return Judged::AtAdmission;
        }
        assert(leaves@.unref()[0] == *leaves@[0]);
        let first = leaves[0].judged();
        let mut i: usize = 1;
        while i < leaves.len()
            invariant
                1 <= i <= leaves.len(),
                first == self.all_leaves()[0].stage(),
                leaves@.unref() == self.all_leaves(),
                forall|j: int|
                    0 <= j < i ==> (#[trigger] self.all_leaves()[j]).stage() == first,
            decreases leaves.len() - i,
        {
            assert(leaves@.unref()[i as int] == *leaves@[i as int]);
            if leaves[i].judged() != first {
                assert(self.all_leaves()[i as int].stage() != first);
                return Judged::InTheLeg;
            }
            i = i + 1;
        }
        first
    }
}

} // verus!
