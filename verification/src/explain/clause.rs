//! Clauses, rules and methods, as text.
use vstd::prelude::*;

use crate::dsl::{slot_of, Clause, Expr, ModeExpr, RuleExpr, RuleLeaf, SlotRef, TargetExpr};
use crate::effect::{Moves, Presence};
use crate::explain::names::{Lexicon, Names, ATOM, SELECT};
use crate::rule::Rule;
use crate::signature::AbiParam;
use crate::text::{cat2, cat3, cat4, cat6, concat, decimal, join, same_text, to_the_right};
use crate::types::Value;

verus! {

/// Whether an order bound is the bottom of the whole space, however
/// spelled.
pub open spec fn is_bottom(bound: Expr) -> bool
    decreases bound,
{
    match bound {
        Expr::Literal(Value::U64(number)) => number == 0,
        Expr::Literal(Value::U128(number)) => number == 0,
        Expr::Pack { hi, lo } => is_bottom(*hi) && is_bottom(*lo),
        _ => false,
    }
}

/// Whether an order bound is the bottom of the whole space, however
/// spelled: `0` and `pack(0, 0)` name one bound, and a range over the
/// whole space says less as sixty digits than as the phrase.
pub fn is_least(bound: &Expr) -> (r: bool)
    ensures
        r == is_bottom(*bound),
    decreases bound,
{
    match bound {
        Expr::Literal(value) => match value {
            Value::U64(number) => *number == 0,
            Value::U128(number) => *number == 0,
            _ => false,
        },
        Expr::Pack { hi, lo } => is_least(hi) && is_least(lo),
        _ => false,
    }
}

/// Whether an order bound is the top of the whole space, however spelled.
pub open spec fn is_top(bound: Expr) -> bool
    decreases bound,
{
    match bound {
        Expr::Literal(Value::U64(number)) => number == u64::MAX,
        Expr::Literal(Value::U128(number)) => number == u128::MAX,
        Expr::Pack { hi, lo } => is_top(*hi) && is_top(*lo),
        _ => false,
    }
}

/// Whether an order bound is the top of the whole space, on [`is_least`]'s
/// terms.
pub fn is_greatest(bound: &Expr) -> (r: bool)
    ensures
        r == is_top(*bound),
    decreases bound,
{
    match bound {
        Expr::Literal(value) => match value {
            Value::U64(number) => *number == u64::MAX,
            Value::U128(number) => *number == u128::MAX,
            _ => false,
        },
        Expr::Pack { hi, lo } => is_greatest(hi) && is_greatest(lo),
        _ => false,
    }
}

/// The material a target's rendered key shows.
pub open spec fn shown_material(target: TargetExpr) -> Seq<Expr> {
    match crate::dsl::named_slot(target) {
        Some((_, material)) => material,
        None => Seq::empty(),
    }
}

/// A count, as far as a clause index goes.
pub open spec fn capped(count: nat) -> u32 {
    if count > u32::MAX {
        u32::MAX
    } else {
        count as u32
    }
}

/// The preorder number the listing gives a top-level clause, or, where
/// `site` names a line of that clause's loop body, the body line's own.
pub open spec fn listed_at(effects: Seq<Clause>, index: u32, site: Option<u32>) -> Option<u32> {
    if index >= effects.len() {
        None
    } else {
        let before = Clause::preorder(effects.take(index as int)).len();
        match site {
            None => Some(capped(before)),
            Some(at) => match effects[index as int] {
                Clause::ForEach { body, .. } => if at >= body@.len() {
                    None
                } else {
                    Some(capped(before + 1 + Clause::preorder(body@.take(at as int)).len()))
                },
                _ => if at == 0 {
                    Some(capped(before))
                } else {
                    None
                },
            },
        }
    }
}

/// How many lines the first `until` of a run of clauses list as.
pub(crate) fn preorder_len(clauses: &Vec<Clause>, until: usize) -> (r: u32)
    requires
        until <= clauses@.len(),
    ensures
        r == capped(Clause::preorder(clauses@.take(until as int)).len()),
    decreases clauses,
{
    let mut number: u32 = 0;
    let mut i: usize = 0;
    while i < until
        invariant
            i <= until <= clauses@.len(),
            number == capped(Clause::preorder(clauses@.take(i as int)).len()),
        decreases until - i,
    {
        proof {
            let longer = clauses@.take(i as int + 1);
            assert(longer.drop_last() =~= clauses@.take(i as int));
            assert(longer.last() == clauses@[i as int]);
            lemma_walk_lists_itself(clauses@[i as int]);
        }
        number = number.saturating_add(1);
        match &clauses[i] {
            Clause::ForEach { body, .. } => {
                number = number.saturating_add(preorder_len(body, body.len()));
                assert(body@.take(body@.len() as int) =~= body@);
            },
            _ => {},
        }
        i = i + 1;
    }
    number
}

/// The preorder number the listing gives top-level clause `index`, or,
/// where `site` names a line of that clause's loop body, the body line's
/// own number. Nothing for a coordinate the effects do not hold, including
/// a sited binding on a clause that is not a loop.
pub fn listed_line(effects: &Vec<Clause>, index: u32, site: Option<u32>) -> (r: Option<u32>)
    ensures
        r == listed_at(effects@, index, site),
{
    let position = index as usize;
    if position >= effects.len() {
        return None;
    }
    let number = preorder_len(effects, position);
    let at = match site {
        Some(at) => at as usize,
        None => {
            return Some(number);
        },
    };
    match &effects[position] {
        Clause::ForEach { body, .. } => {
            if at >= body.len() {
                None
            } else {
                Some(number.saturating_add(1).saturating_add(preorder_len(body, at)))
            }
        },
        _ => {
            if at == 0 {
                Some(number)
            } else {
                None
            }
        },
    }
}

/// What a run of listed clause numbers reads as: one phrase where it is
/// three or longer, and one for each otherwise.
pub open spec fn run_texts(run: Seq<u32>) -> Seq<Seq<char>> {
    if run.len() >= 3 {
        seq![
            "handles for clauses "@ + crate::text::decimal_text(run[0] as nat) + "–"@
                + crate::text::decimal_text(run.last() as nat),
        ]
    } else {
        Seq::new(
            run.len(),
            |i: int| "handle for clause "@ + crate::text::decimal_text(run[i] as nat),
        )
    }
}

/// The listed number of the clause a parameter is the handle of, where it
/// is one and the listing has it.
pub open spec fn handle_line(param: AbiParam, effects: Seq<Clause>) -> Option<u32> {
    match param {
        AbiParam::Handle { clause, site } => listed_at(effects, clause, Some(site)),
        _ => None,
    }
}

impl Lexicon {
    /// A collection under an owner, at the material separating it from the
    /// slot's others.
    pub open spec fn collection(self, owner: Expr, slot: SlotRef, material: Seq<Expr>) -> Seq<
        char,
    > {
        self.expr(owner, ATOM as int) + "."@ + self.slot(slot) + self.material(material)
    }

    /// What is reached: one leaf, one entry, or an interval of them.
    pub open spec fn target(self, target: TargetExpr) -> Seq<char> {
        match target {
            TargetExpr::Point(key) => self.expr(key, ATOM as int),
            TargetExpr::Entry { owner, collection, material, order } => self.collection(
                owner,
                collection,
                material@,
            ) + " at "@ + self.expr(order, ATOM as int),
            TargetExpr::Range { owner, collection, material, lo, hi, cap } => self.collection(
                owner,
                collection,
                material@,
            ) + " over "@ + (if is_bottom(lo) && is_top(hi) {
                "the whole order space"@
            } else {
                self.expr(lo, ATOM as int) + "..="@ + self.expr(hi, ATOM as int)
            }) + ", at most "@ + self.expr(cap, ATOM as int) + " entries"@,
        }
    }

    /// How a cell is reached. A write says which way value moves under it
    /// only where the cell holds value at all.
    pub open spec fn mode(self, mode: ModeExpr, target: TargetExpr, holds_value: bool) -> Seq<
        char,
    > {
        match mode {
            ModeExpr::Read => "read"@,
            ModeExpr::Delta { moves: Moves::Both } => "delta"@,
            ModeExpr::Delta { moves: Moves::In } => "credit"@,
            ModeExpr::Delta { moves: Moves::Out } => "debit"@,
            ModeExpr::Reserve(amount) => "reserve "@ + self.expr(amount, ATOM as int),
            ModeExpr::Write { moves } => if !holds_value || moves == Moves::Both {
                "write"@
            } else if moves == Moves::In {
                if target is Point {
                    "credit-only"@
                } else {
                    "file"@
                }
            } else {
                if target is Point {
                    "debit-only"@
                } else {
                    "take"@
                }
            },
        }
    }

    /// A declared rule: a threshold over leaves a caller must present.
    pub open spec fn rule(self, rule: RuleExpr) -> Seq<char>
        decreases rule,
    {
        match rule {
            Rule::Require(leaf) => match leaf {
                RuleLeaf::Claim(claim) => "claim "@ + self.expr(claim, ATOM as int),
                RuleLeaf::Stored { cell } => "the rule stored at "@ + self.expr(
                    cell,
                    ATOM as int,
                ),
                RuleLeaf::Presence { target, expect } => self.target(*target) + " is "@ + (
                match expect {
                    Presence::Either => "there or not"@,
                    Presence::Absent => "absent"@,
                    Presence::Present => "present"@,
                }),
            },
            Rule::CountOf { count, rules } => crate::text::decimal_text(count as nat) + " of ("@
                + crate::text::joined_text(self.rules(rules@), ", "@) + ")"@,
        }
    }

    /// Declared rules, one text for each.
    pub open spec fn rules(self, rules: Seq<RuleExpr>) -> Seq<Seq<char>>
        decreases rules,
    {
        Seq::new(
            rules.len(),
            |i: int|
                if 0 <= i < rules.len() {
                    self.rule(rules[i])
                } else {
                    Seq::empty()
                },
        )
    }

    /// The judgment a clause is declared under, where there is one.
    pub open spec fn guard(self, guard: Option<Box<Expr>>) -> Seq<char> {
        match guard {
            Some(condition) => "when "@ + self.expr(*condition, SELECT as int) + " → "@,
            None => Seq::empty(),
        }
    }

    /// Whether a target's key already shows a denomination.
    pub open spec fn is_restated(self, target: TargetExpr, resource: Expr) -> bool {
        exists|i: int|
            0 <= i < shown_material(target).len() && self.expr(
                #[trigger] shown_material(target)[i],
                SELECT as int,
            ) == self.expr(resource, SELECT as int)
    }

    /// The denomination of an access, where its key does not show it.
    pub open spec fn held(self, target: TargetExpr, denomination: Option<Box<Expr>>) -> Seq<char> {
        match denomination {
            Some(resource) => if self.is_restated(target, *resource) {
                Seq::empty()
            } else {
                " holding "@ + self.expr(*resource, ATOM as int)
            },
            None => Seq::empty(),
        }
    }

    /// One clause and, for a loop, its body, numbered in the preorder a
    /// clause index names.
    pub open spec fn clause(self, clause: Clause, number: u32, pad: Seq<char>) -> Seq<char>
        decreases clause,
    {
        let head = pad + crate::text::right_text(crate::text::decimal_text(number as nat), 3)
            + "  "@ + self.guard(clause.condition());
        match clause {
            Clause::Effect { target, mode, denomination, reach, .. } => head + self.mode(
                mode,
                target,
                denomination is Some,
            ) + " "@ + self.target(target) + self.held(target, denomination) + (match reach {
                Some(behaviour) => ", reaching under "@ + behaviour.label(),
                None => Seq::empty(),
            }) + "\n"@,
            Clause::ForEach { list, body, .. } => head + "for each of "@ + self.expr(
                list,
                ATOM as int,
            ) + "\n"@ + crate::text::run_on(
                self.clauses(body@, capped(number as nat + 1), pad + "  "@),
            ),
            Clause::Requires { rule, .. } => head + "requires "@ + self.rule(rule) + "\n"@,
            Clause::Mints { claim, .. } => head + "proves "@ + self.expr(claim, ATOM as int)
                + "\n"@,
        }
    }

    /// Clauses, one text for each, numbered from `number` on in the
    /// preorder a clause index names.
    pub open spec fn clauses(self, clauses: Seq<Clause>, number: u32, pad: Seq<char>) -> Seq<
        Seq<char>,
    >
        decreases clauses,
    {
        Seq::new(
            clauses.len(),
            |i: int|
                if 0 <= i < clauses.len() {
                    self.clause(
                        clauses[i],
                        capped(number as nat + Clause::preorder(clauses.take(i)).len()),
                        pad,
                    )
                } else {
                    Seq::empty()
                },
        )
    }

    /// How one ABI parameter is built.
    pub open spec fn abi_param(self, param: AbiParam, effects: Seq<Clause>) -> Seq<char> {
        match param {
            AbiParam::Handle { clause, site } => match listed_at(effects, clause, Some(site)) {
                Some(line) => "handle for clause "@ + crate::text::decimal_text(line as nat),
                None => "handle for clause "@ + crate::text::decimal_text(clause as nat)
                    + " site "@ + crate::text::decimal_text(site as nat),
            },
            AbiParam::Bucket(position) => "edge arg"@ + crate::text::decimal_text(
                position as nat,
            ),
            AbiParam::Guard(clause) => "whether clause "@ + crate::text::decimal_text(
                (match listed_at(effects, clause, None) {
                    Some(line) => line,
                    None => clause,
                }) as nat,
            ) + " was declared"@,
            AbiParam::Derived(expr) => self.expr(expr, SELECT as int),
        }
    }

    /// The exports line's entries, with an unbroken run of clause handles
    /// said once; `run` is the run so far.
    pub open spec fn exports(self, abi: Seq<AbiParam>, effects: Seq<Clause>, run: Seq<u32>) -> Seq<
        Seq<char>,
    >
        decreases abi.len(),
    {
        if abi.len() == 0 {
            run_texts(run)
        } else {
            match handle_line(abi[0], effects) {
                Some(line) => if run.len() > 0 && line != run.last() + 1 {
                    run_texts(run) + self.exports(abi.skip(1), effects, seq![line])
                } else {
                    self.exports(abi.skip(1), effects, run.push(line))
                },
                None => run_texts(run) + seq![self.abi_param(abi[0], effects)] + self.exports(
                    abi.skip(1),
                    effects,
                    Seq::empty(),
                ),
            }
        }
    }
}

impl<'a> Names<'a> {
    /// A collection under an owner, at the material separating it from the
    /// slot's others.
    pub fn collection(&self, owner: &Expr, slot: &SlotRef, material: &Vec<Expr>) -> (r: String)
        ensures
            r@ == self.lexicon().collection(*owner, *slot, material@),
    {
        cat4(
            self.expr(owner, ATOM).as_str(),
            ".",
            self.slot(slot).as_str(),
            self.material(material).as_str(),
        )
    }

    /// What is reached: one leaf, one entry, or an interval of them.
    pub fn target(&self, target: &TargetExpr) -> (r: String)
        ensures
            r@ == self.lexicon().target(*target),
    {
        match target {
            TargetExpr::Point(key) => self.expr(key, ATOM),
            TargetExpr::Entry { owner, collection, material, order } => cat3(
                self.collection(owner, collection, material).as_str(),
                " at ",
                self.expr(order, ATOM).as_str(),
            ),
            TargetExpr::Range { owner, collection, material, lo, hi, cap } => {
                let over = if is_least(lo) && is_greatest(hi) {
                    "the whole order space".to_owned()
                } else {
                    cat3(self.expr(lo, ATOM).as_str(), "..=", self.expr(hi, ATOM).as_str())
                };
                cat6(
                    self.collection(owner, collection, material).as_str(),
                    " over ",
                    over.as_str(),
                    ", at most ",
                    self.expr(cap, ATOM).as_str(),
                    " entries",
                )
            },
        }
    }

    /// How a cell is reached.
    ///
    /// An exclusive write says which way value moves under it, and the
    /// verb that says so is the cell's: a balance is credited and debited,
    /// a collection is filed into and taken from. Rendered only where the
    /// cell holds value at all.
    pub fn mode(&self, mode: &ModeExpr, target: &TargetExpr, holds_value: bool) -> (r: String)
        ensures
            r@ == self.lexicon().mode(*mode, *target, holds_value),
    {
        match mode {
            ModeExpr::Read => "read".to_owned(),
            ModeExpr::Delta { moves } => match moves {
                Moves::Both => "delta".to_owned(),
                Moves::In => "credit".to_owned(),
                Moves::Out => "debit".to_owned(),
            },
            ModeExpr::Reserve(amount) => cat2("reserve ", self.expr(amount, ATOM).as_str()),
            ModeExpr::Write { moves } => {
                if !holds_value {
                    return "write".to_owned();
                }
                match moves {
                    Moves::Both => "write".to_owned(),
                    Moves::In => match target {
                        TargetExpr::Point(_) => "credit-only".to_owned(),
                        _ => "file".to_owned(),
                    },
                    Moves::Out => match target {
                        TargetExpr::Point(_) => "debit-only".to_owned(),
                        _ => "take".to_owned(),
                    },
                }
            },
        }
    }

    /// A declared rule: a threshold over leaves a caller must present.
    pub fn rule(&self, rule: &RuleExpr) -> (r: String)
        ensures
            r@ == self.lexicon().rule(*rule),
        decreases rule,
    {
        match rule {
            Rule::Require(leaf) => match leaf {
                RuleLeaf::Claim(claim) => cat2("claim ", self.expr(claim, ATOM).as_str()),
                RuleLeaf::Stored { cell } => cat2(
                    "the rule stored at ",
                    self.expr(cell, ATOM).as_str(),
                ),
                RuleLeaf::Presence { target, expect } => {
                    let way = match expect {
                        Presence::Either => "there or not",
                        Presence::Absent => "absent",
                        Presence::Present => "present",
                    };
                    cat3(self.target(target).as_str(), " is ", way)
                },
            },
            Rule::CountOf { count, rules } => {
                let mut branches: Vec<String> = Vec::new();
                let mut i: usize = 0;
                while i < rules.len()
                    invariant
                        i <= rules.len(),
                        branches.len() == i,
                        *rule matches Rule::CountOf { rules: held, .. } && held == *rules,
                        forall|j: int|
                            0 <= j < i ==> (#[trigger] branches@[j])@ == self.lexicon().rule(
                                rules@[j],
                            ),
                    decreases rules.len() - i,
                {
                    branches.push(self.rule(&rules[i]));
                    i = i + 1;
                }
                assert(crate::text::texts(branches@) =~= self.lexicon().rules(rules@));
                cat4(
                    decimal(*count as u128).as_str(),
                    " of (",
                    join(&branches, ", ").as_str(),
                    ")",
                )
            },
        }
    }

    /// The judgment a clause is declared under, where there is one.
    fn guard(&self, guard: &Option<Box<Expr>>) -> (r: String)
        ensures
            r@ == self.lexicon().guard(*guard),
    {
        match guard {
            Some(condition) => cat3("when ", self.expr(condition, SELECT).as_str(), " → "),
            None => String::new(),
        }
    }

    /// Whether a target's key already shows a denomination.
    fn restates(&self, target: &TargetExpr, resource: &Expr) -> (r: bool)
        ensures
            r == self.lexicon().is_restated(*target, *resource),
    {
        let material = match slot_of(target) {
            Some((_, material)) => material,
            None => {
                return false;
            },
        };
        let wanted = self.expr(resource, SELECT);
        let mut i: usize = 0;
        while i < material.len()
            invariant
                i <= material.len(),
                material@ == shown_material(*target),
                wanted@ == self.lexicon().expr(*resource, SELECT as int),
                forall|j: int|
                    0 <= j < i ==> self.lexicon().expr(
                        #[trigger] shown_material(*target)[j],
                        SELECT as int,
                    ) != wanted@,
            decreases material.len() - i,
        {
            let shown = self.expr(&material[i], SELECT);
            if same_text(shown.as_str(), wanted.as_str()) {
                assert(self.lexicon().expr(shown_material(*target)[i as int], SELECT as int)
                    == wanted@);
                return true;
            }
            i = i + 1;
        }
        false
    }

    /// The denomination of an access, where its key does not show it.
    ///
    /// A vault-like cell is keyed by the resource it holds, so its
    /// denomination is its key restated: written once, as the key.
    fn held(&self, target: &TargetExpr, denomination: &Option<Box<Expr>>) -> (r: String)
        ensures
            r@ == self.lexicon().held(*target, *denomination),
    {
        match denomination {
            Some(resource) => {
                if self.restates(target, resource) {
                    String::new()
                } else {
                    cat2(" holding ", self.expr(resource, ATOM).as_str())
                }
            },
            None => String::new(),
        }
    }

    /// One clause and, for a loop, its body, numbering in the preorder a
    /// clause index names.
    pub fn clause(&self, clause: &Clause, number: u32, pad: &str) -> (r: String)
        ensures
            r@ == self.lexicon().clause(*clause, number, pad@),
        decreases clause,
    {
        let listed = to_the_right(decimal(number as u128).as_str(), 3);
        let guard = self.guard(clause.guard());
        let head = cat4(pad, listed.as_str(), "  ", guard.as_str());
        match clause {
            Clause::Effect { target, mode, denomination, reach, .. } => {
                // A reach names whose authority lets it name somebody
                // else's cell, which is the first thing a reader of the
                // clause needs.
                let under = match reach {
                    Some(behaviour) => cat2(", reaching under ", behaviour.word()),
                    None => String::new(),
                };
                let how = self.mode(mode, target, denomination.is_some());
                let reached = cat4(
                    head.as_str(),
                    how.as_str(),
                    " ",
                    self.target(target).as_str(),
                );
                cat4(
                    reached.as_str(),
                    self.held(target, denomination).as_str(),
                    under.as_str(),
                    "\n",
                )
            },
            Clause::ForEach { list, body, .. } => {
                let first = cat4(
                    head.as_str(),
                    "for each of ",
                    self.expr(list, ATOM).as_str(),
                    "\n",
                );
                let within = cat2(pad, "  ");
                let nested = self.clauses(body, number.saturating_add(1), within.as_str());
                cat2(first.as_str(), nested.as_str())
            },
            Clause::Requires { rule, .. } => cat4(
                head.as_str(),
                "requires ",
                self.rule(rule).as_str(),
                "\n",
            ),
            Clause::Mints { claim, .. } => cat4(
                head.as_str(),
                "proves ",
                self.expr(claim, ATOM).as_str(),
                "\n",
            ),
        }
    }

    /// A run of clauses, numbered from `number` on.
    pub fn clauses(&self, clauses: &Vec<Clause>, number: u32, pad: &str) -> (r: String)
        ensures
            r@ == crate::text::run_on(self.lexicon().clauses(clauses@, number, pad@)),
        decreases clauses,
    {
        let ghost all = self.lexicon().clauses(clauses@, number, pad@);
        let mut lines: Vec<String> = Vec::new();
        let mut next: u32 = number;
        let mut i: usize = 0;
        while i < clauses.len()
            invariant
                i <= clauses.len(),
                lines.len() == i,
                all == self.lexicon().clauses(clauses@, number, pad@),
                next == capped(number as nat + Clause::preorder(clauses@.take(i as int)).len()),
                forall|j: int| 0 <= j < i ==> (#[trigger] lines@[j])@ == all[j],
            decreases clauses.len() - i,
        {
            proof {
                let longer = clauses@.take(i as int + 1);
                assert(longer.drop_last() =~= clauses@.take(i as int));
                assert(longer.last() == clauses@[i as int]);
                lemma_walk_lists_itself(clauses@[i as int]);
            }
            lines.push(self.clause(&clauses[i], next, pad));
            next = next.saturating_add(1);
            match &clauses[i] {
                Clause::ForEach { body, .. } => {
                    assert(body@.take(body@.len() as int) =~= body@);
                    next = next.saturating_add(preorder_len(body, body.len()));
                },
                _ => {},
            }
            i = i + 1;
        }
        assert(crate::text::texts(lines@) =~= all);
        concat(&lines)
    }

    /// How one ABI parameter is built.
    ///
    /// A binding names a top-level clause, and for a loop one site of its
    /// body; the listing numbers every line in preorder. What is rendered
    /// is the listed number of the exact line the binding covers.
    pub fn abi_param(&self, param: &AbiParam, effects: &Vec<Clause>) -> (r: String)
        ensures
            r@ == self.lexicon().abi_param(*param, effects@),
    {
        match param {
            AbiParam::Handle { clause, site } => match listed_line(effects, *clause, Some(*site)) {
                Some(line) => cat2("handle for clause ", decimal(line as u128).as_str()),
                None => cat4(
                    "handle for clause ",
                    decimal(*clause as u128).as_str(),
                    " site ",
                    decimal(*site as u128).as_str(),
                ),
            },
            AbiParam::Bucket(position) => cat2("edge arg", decimal(*position as u128).as_str()),
            AbiParam::Guard(clause) => {
                let line: u32 = match listed_line(effects, *clause, None) {
                    Some(line) => line,
                    None => *clause,
                };
                cat3("whether clause ", decimal(line as u128).as_str(), " was declared")
            },
            AbiParam::Derived(expr) => self.expr(expr, SELECT),
        }
    }

    /// The exports line's entries, with an unbroken run of clause handles
    /// said once: one phrase rather than seven spellings of one word. A
    /// run of two stays spelled out: the compression pays only where the
    /// counting does.
    pub fn abi_params(&self, abi: &Vec<AbiParam>, effects: &Vec<Clause>) -> (r: Vec<String>)
        ensures
            crate::text::texts(r@) == self.lexicon().exports(abi@, effects@, Seq::empty()),
    {
        let ghost whole = self.lexicon().exports(abi@, effects@, Seq::empty());
        let mut bound: Vec<String> = Vec::new();
        let mut run: Vec<u32> = Vec::new();
        let mut i: usize = 0;
        proof {
            assert(abi@.skip(0) =~= abi@);
            assert(run@ =~= Seq::empty());
            assert(crate::text::texts(bound@) + whole =~= whole);
        }
        while i < abi.len()
            invariant
                i <= abi.len(),
                crate::text::texts(bound@) + self.lexicon().exports(
                    abi@.skip(i as int),
                    effects@,
                    run@,
                ) == whole,
            decreases abi.len() - i,
        {
            let ghost said = crate::text::texts(bound@);
            let ghost so_far = run@;
            let ghost after = abi@.skip(i as int + 1);
            proof {
                assert(abi@.skip(i as int).skip(1) =~= after);
                assert(abi@.skip(i as int)[0] == abi@[i as int]);
            }
            let line = match &abi[i] {
                AbiParam::Handle { clause, site } => listed_line(effects, *clause, Some(*site)),
                _ => None,
            };
            match line {
                Some(line) => {
                    let broken = run.len() > 0 && line as u64 != run[run.len() - 1] as u64 + 1;
                    if broken {
                        flush(&mut bound, &mut run);
                        assert(said + (run_texts(so_far) + self.lexicon().exports(
                            after,
                            effects@,
                            seq![line],
                        )) =~= said + run_texts(so_far) + self.lexicon().exports(
                            after,
                            effects@,
                            seq![line],
                        ));
                    }
                    run.push(line);
                    assert(broken ==> run@ =~= seq![line]);
                },
                None => {
                    flush(&mut bound, &mut run);
                    let ghost flushed = crate::text::texts(bound@);
                    let one = self.abi_param(&abi[i], effects);
                    bound.push(one);
                    proof {
                        let rest = self.lexicon().exports(after, effects@, Seq::empty());
                        let spelled = self.lexicon().abi_param(abi@[i as int], effects@);
                        assert(crate::text::texts(bound@) =~= flushed + seq![spelled]);
                        assert(said + (run_texts(so_far) + seq![spelled] + rest) =~= said
                            + run_texts(so_far) + seq![spelled] + rest);
                        assert(run@ =~= Seq::empty());
                    }
                },
            }
            i = i + 1;
        }
        proof {
            assert(abi@.skip(i as int).len() == 0);
        }
        flush(&mut bound, &mut run);
        bound
    }
}

/// Say a run of listed clause numbers, and begin another.
fn flush(bound: &mut Vec<String>, run: &mut Vec<u32>)
    ensures
        crate::text::texts(final(bound)@) == crate::text::texts(old(bound)@) + run_texts(old(run)@),
        final(run)@.len() == 0,
{
    let ghost start = crate::text::texts(bound@);
    let ghost held = run@;
    if run.len() >= 3 {
        let first = decimal(run[0] as u128);
        let last = decimal(run[run.len() - 1] as u128);
        bound.push(cat4("handles for clauses ", first.as_str(), "–", last.as_str()));
        assert(crate::text::texts(bound@) =~= start + run_texts(held));
    } else {
        let mut i: usize = 0;
        while i < run.len()
            invariant
                i <= run.len(),
                run.len() < 3,
                run@ == held,
                crate::text::texts(bound@) == start + run_texts(held).take(i as int),
            decreases run.len() - i,
        {
            let ghost said = crate::text::texts(bound@);
            bound.push(cat2("handle for clause ", decimal(run[i] as u128).as_str()));
            assert(crate::text::texts(bound@) =~= said.push(run_texts(held)[i as int]));
            assert(crate::text::texts(bound@) =~= start + run_texts(held).take(i as int + 1));
            i = i + 1;
        }
        assert(run_texts(held).take(i as int) =~= run_texts(held));
    }
    run.clear();
}

/// A clause lists itself, and whatever is inside it.
pub proof fn lemma_walk_lists_itself(clause: Clause)
    ensures
        clause.walk().len() == 1 + (match clause {
            Clause::ForEach { body, .. } => Clause::preorder(body@).len(),
            _ => 0,
        }),
{
}

} // verus!
