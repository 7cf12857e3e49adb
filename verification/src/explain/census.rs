//! The census of the resources a package issues, which lets a mention
//! leave its grants to the resources table.
use vstd::prelude::*;

use crate::dsl::{push_all, Clause, Expr, ModeExpr, RuleExpr, RuleLeaf, TargetExpr};
use crate::explain::literal::{bytes, resource_kind};
use crate::explain::names::{Derivation, Lexicon, Names, Row};
use crate::metadata::{Name, PackageMetadata};
use crate::rule::Rule;
use crate::signature::{AbiParam, Issuance, MethodSignature};
use crate::table::TableKey;
use crate::text::{cat3, same_text};

verus! {

/// An expression that may not be there, as a run of none or one.
pub open spec fn optional(expr: Option<Box<Expr>>) -> Seq<Expr> {
    match expr {
        Some(held) => seq![*held],
        None => Seq::empty(),
    }
}

/// A target's expressions: the owner, whatever names the slot, the
/// material, and the bounds.
pub open spec fn target_inside(target: TargetExpr) -> Seq<Expr> {
    match target {
        TargetExpr::Point(key) => seq![key],
        TargetExpr::Entry { owner, collection, material, order } => seq![owner]
            + collection.naming() + material@ + seq![order],
        TargetExpr::Range { owner, collection, material, lo, hi, cap } => seq![owner]
            + collection.naming() + material@ + seq![lo, hi, cap],
    }
}

/// A declared leaf's expressions.
pub open spec fn leaf_inside(leaf: RuleLeaf) -> Seq<Expr> {
    match leaf {
        RuleLeaf::Claim(claim) => seq![claim],
        RuleLeaf::Stored { cell } => seq![cell],
        RuleLeaf::Presence { target, .. } => target_inside(*target),
    }
}

/// A declared rule's expressions, leaf by leaf.
pub open spec fn rule_inside(rule: RuleExpr) -> Seq<Expr>
    decreases rule,
{
    match rule {
        Rule::Require(leaf) => leaf_inside(leaf),
        Rule::CountOf { rules, .. } => crate::runs::spliced(rules_inside(rules@)),
    }
}

/// The expressions of each of a run of rules.
pub open spec fn rules_inside(rules: Seq<RuleExpr>) -> Seq<Seq<Expr>>
    decreases rules,
{
    Seq::new(
        rules.len(),
        |i: int|
            if 0 <= i < rules.len() {
                rule_inside(rules[i])
            } else {
                Seq::empty()
            },
    )
}

/// One clause's own expressions. A loop's body is not among them.
pub open spec fn clause_inside(clause: Clause) -> Seq<Expr> {
    match clause {
        Clause::Effect { guard, target, mode, denomination, .. } => optional(guard)
            + target_inside(target) + (match mode {
            ModeExpr::Reserve(amount) => seq![amount],
            _ => Seq::empty(),
        }) + optional(denomination),
        Clause::ForEach { guard, list, .. } => optional(guard) + seq![list],
        Clause::Requires { guard, rule } => optional(guard) + rule_inside(rule),
        Clause::Mints { guard, claim } => optional(guard) + seq![claim],
    }
}

/// The denominations a signature states.
pub open spec fn stated(denominations: Seq<Option<Expr>>) -> Seq<Expr> {
    crate::runs::spliced(
        Seq::new(
            denominations.len(),
            |i: int|
                match denominations[i] {
                    Some(resource) => seq![resource],
                    None => Seq::empty(),
                },
        ),
    )
}

/// The expressions an export's arguments are derived by.
pub open spec fn derived(abi: Seq<AbiParam>) -> Seq<Expr> {
    crate::runs::spliced(
        Seq::new(
            abi.len(),
            |i: int|
                match abi[i] {
                    AbiParam::Derived(expr) => seq![expr],
                    _ => Seq::empty(),
                },
        ),
    )
}

/// The expressions of a run of clauses.
pub open spec fn clauses_inside(clauses: Seq<Clause>) -> Seq<Expr> {
    crate::runs::spliced(Seq::new(clauses.len(), |i: int| clause_inside(clauses[i])))
}

/// Every expression a signature holds at top level, wherever the
/// declaration puts one.
pub open spec fn signature_inside(signature: MethodSignature) -> Seq<Expr> {
    stated(signature.denominations@) + signature.outputs@ + derived(signature.abi@)
        + clauses_inside(Clause::preorder(signature.effects@))
}

/// A target's expressions.
fn target_exprs<'a>(target: &'a TargetExpr, into: &mut Vec<&'a Expr>)
    ensures
        final(into)@.unref() == old(into)@.unref() + target_inside(*target),
{
    let ghost start = into@.unref();
    match target {
        TargetExpr::Point(key) => {
            into.push(key);
            assert(into@.unref() =~= start + target_inside(*target));
        },
        TargetExpr::Entry { owner, collection, material, order } => {
            into.push(owner);
            match collection.reached() {
                Some(naming) => {
                    into.push(naming);
                },
                None => {},
            }
            let ghost before = into@.unref();
            assert(before =~= start + seq![*owner] + collection.naming());
            push_all(into, material);
            let ghost listed = into@.unref();
            into.push(order);
            assert(into@.unref() =~= listed + seq![*order]);
            assert(into@.unref() =~= start + target_inside(*target));
        },
        TargetExpr::Range { owner, collection, material, lo, hi, cap } => {
            into.push(owner);
            match collection.reached() {
                Some(naming) => {
                    into.push(naming);
                },
                None => {},
            }
            let ghost before = into@.unref();
            assert(before =~= start + seq![*owner] + collection.naming());
            push_all(into, material);
            let ghost listed = into@.unref();
            into.push(lo);
            into.push(hi);
            into.push(cap);
            assert(into@.unref() =~= listed + seq![*lo, *hi, *cap]);
            assert(into@.unref() =~= start + target_inside(*target));
        },
    }
}

/// A declared rule's expressions, leaf by leaf.
fn rule_exprs<'a>(rule: &'a RuleExpr, into: &mut Vec<&'a Expr>)
    ensures
        final(into)@.unref() == old(into)@.unref() + rule_inside(*rule),
    decreases rule,
{
    let ghost start = into@.unref();
    match rule {
        Rule::Require(leaf) => match leaf {
            RuleLeaf::Claim(claim) => {
                into.push(claim);
                assert(into@.unref() =~= start + seq![*claim]);
            },
            RuleLeaf::Stored { cell } => {
                into.push(cell);
                assert(into@.unref() =~= start + seq![*cell]);
            },
            RuleLeaf::Presence { target, .. } => target_exprs(target, into),
        },
        Rule::CountOf { rules, .. } => {
            let ghost parts = rules_inside(rules@);
            let mut i: usize = 0;
            assert(parts.take(0) =~= Seq::empty());
            assert(start + crate::runs::spliced(parts.take(0)) =~= start);
            while i < rules.len()
                invariant
                    i <= rules.len(),
                    parts.len() == rules@.len(),
                    forall|j: int|
                        0 <= j < rules@.len() ==> #[trigger] parts[j] == rule_inside(rules@[j]),
                    *rule matches Rule::CountOf { rules: held, .. } && held == *rules,
                    into@.unref() == start + crate::runs::spliced(parts.take(i as int)),
                decreases rules.len() - i,
            {
                rule_exprs(&rules[i], into);
                proof {
                    crate::runs::lemma_one_more(parts, i as int);
                    assert(start + crate::runs::spliced(parts.take(i as int)) + parts[i as int] =~= start + (
                    crate::runs::spliced(parts.take(i as int)) + parts[i as int]));
                }
                i = i + 1;
            }
            assert(parts.take(i as int) =~= parts);
        },
    }
}

/// An expression that may not be there.
fn optional_expr<'a>(expr: &'a Option<Box<Expr>>, into: &mut Vec<&'a Expr>)
    ensures
        final(into)@.unref() == old(into)@.unref() + optional(*expr),
{
    match expr {
        Some(held) => {
            into.push(held);
        },
        None => {},
    }
    assert(into@.unref() =~= old(into)@.unref() + optional(*expr));
}

/// One clause's own expressions. A loop's body is walked by the caller,
/// which goes through the preorder.
fn clause_exprs<'a>(clause: &'a Clause, into: &mut Vec<&'a Expr>)
    ensures
        final(into)@.unref() == old(into)@.unref() + clause_inside(*clause),
{
    let ghost start = into@.unref();
    match clause {
        Clause::Effect { guard, target, mode, denomination, .. } => {
            optional_expr(guard, into);
            target_exprs(target, into);
            let ghost reached = into@.unref();
            match mode {
                ModeExpr::Reserve(amount) => {
                    into.push(amount);
                    assert(into@.unref() =~= reached + seq![*amount]);
                },
                _ => {
                    assert(reached =~= reached + Seq::<Expr>::empty());
                },
            }
            optional_expr(denomination, into);
            assert(into@.unref() =~= start + clause_inside(*clause));
        },
        Clause::ForEach { guard, list, .. } => {
            optional_expr(guard, into);
            let ghost before = into@.unref();
            into.push(list);
            assert(into@.unref() =~= before + seq![*list]);
            assert(into@.unref() =~= start + clause_inside(*clause));
        },
        Clause::Requires { guard, rule } => {
            optional_expr(guard, into);
            rule_exprs(rule, into);
            assert(into@.unref() =~= start + clause_inside(*clause));
        },
        Clause::Mints { guard, claim } => {
            optional_expr(guard, into);
            let ghost before = into@.unref();
            into.push(claim);
            assert(into@.unref() =~= before + seq![*claim]);
            assert(into@.unref() =~= start + clause_inside(*clause));
        },
    }
}

/// Every expression a signature holds at top level, wherever the
/// declaration puts one: the walk the resource census descends from.
pub fn signature_exprs(signature: &MethodSignature) -> (r: Vec<&Expr>)
    ensures
        r@.unref() == signature_inside(*signature),
{
    let mut exprs: Vec<&Expr> = Vec::new();
    let ghost denominated = Seq::new(
        signature.denominations@.len(),
        |i: int|
            match signature.denominations@[i] {
                Some(resource) => seq![resource],
                None => Seq::empty(),
            },
    );
    let mut i: usize = 0;
    assert(exprs@.unref() =~= crate::runs::spliced(denominated.take(0)));
    while i < signature.denominations.len()
        invariant
            i <= signature.denominations.len(),
            denominated.len() == signature.denominations@.len(),
            forall|j: int|
                0 <= j < denominated.len() ==> #[trigger] denominated[j] == (
                match signature.denominations@[j] {
                    Some(resource) => seq![resource],
                    None => Seq::empty(),
                }),
            exprs@.unref() == crate::runs::spliced(denominated.take(i as int)),
        decreases signature.denominations.len() - i,
    {
        let ghost before = exprs@.unref();
        match &signature.denominations[i] {
            Some(resource) => {
                exprs.push(resource);
            },
            None => {},
        }
        assert(exprs@.unref() =~= before + denominated[i as int]);
        proof {
            crate::runs::lemma_one_more(denominated, i as int);
        }
        i = i + 1;
    }
    assert(denominated.take(i as int) =~= denominated);
    push_all(&mut exprs, &signature.outputs);
    let ghost yielded = exprs@.unref();
    let ghost bound = Seq::new(
        signature.abi@.len(),
        |i: int|
            match signature.abi@[i] {
                AbiParam::Derived(expr) => seq![expr],
                _ => Seq::empty(),
            },
    );
    let mut i: usize = 0;
    assert(exprs@.unref() =~= yielded + crate::runs::spliced(bound.take(0)));
    while i < signature.abi.len()
        invariant
            i <= signature.abi.len(),
            bound.len() == signature.abi@.len(),
            forall|j: int|
                0 <= j < bound.len() ==> #[trigger] bound[j] == (match signature.abi@[j] {
                    AbiParam::Derived(expr) => seq![expr],
                    _ => Seq::empty(),
                }),
            exprs@.unref() == yielded + crate::runs::spliced(bound.take(i as int)),
        decreases signature.abi.len() - i,
    {
        let ghost before = exprs@.unref();
        match &signature.abi[i] {
            AbiParam::Derived(expr) => {
                exprs.push(expr);
            },
            _ => {},
        }
        assert(exprs@.unref() =~= before + bound[i as int]);
        proof {
            crate::runs::lemma_one_more(bound, i as int);
            assert(yielded + crate::runs::spliced(bound.take(i as int)) + bound[i as int] =~= yielded + (
            crate::runs::spliced(bound.take(i as int)) + bound[i as int]));
        }
        i = i + 1;
    }
    assert(bound.take(i as int) =~= bound);
    let ghost exported = exprs@.unref();
    let clauses = Clause::flatten(&signature.effects);
    let ghost declared = Clause::preorder(signature.effects@);
    let ghost inside = Seq::new(declared.len(), |i: int| clause_inside(declared[i]));
    let mut i: usize = 0;
    assert(exprs@.unref() =~= exported + crate::runs::spliced(inside.take(0)));
    while i < clauses.len()
        invariant
            i <= clauses.len(),
            clauses@.unref() == declared,
            inside.len() == declared.len(),
            forall|j: int|
                0 <= j < inside.len() ==> #[trigger] inside[j] == clause_inside(declared[j]),
            exprs@.unref() == exported + crate::runs::spliced(inside.take(i as int)),
        decreases clauses.len() - i,
    {
        assert(clauses@.unref()[i as int] == *clauses@[i as int]);
        clause_exprs(clauses[i], &mut exprs);
        proof {
            crate::runs::lemma_one_more(inside, i as int);
            assert(exported + crate::runs::spliced(inside.take(i as int)) + inside[i as int] =~= exported + (
            crate::runs::spliced(inside.take(i as int)) + inside[i as int]));
        }
        i = i + 1;
    }
    assert(inside.take(i as int) =~= inside);
    exprs
}

/// Whether one row is listed before another: by its kind, then by what
/// names it, then by what it grants.
pub open spec fn row_before(left: Row, right: Row) -> bool {
    if left.kind != right.kind {
        crate::table::before(
            crate::table::text_ordinal(left.kind),
            crate::table::text_ordinal(right.kind),
        )
    } else if left.material != right.material {
        crate::table::before(
            crate::table::text_ordinal(left.material),
            crate::table::text_ordinal(right.material),
        )
    } else {
        crate::table::before(
            crate::table::text_ordinal(left.granting),
            crate::table::text_ordinal(right.granting),
        )
    }
}

/// A census with one more row: in its place, and once.
pub open spec fn filed(census: Seq<Row>, row: Row) -> Seq<Row>
    decreases census.len(),
{
    if census.len() == 0 {
        seq![row]
    } else if census[0] == row {
        census
    } else if row_before(row, census[0]) {
        seq![row] + census
    } else {
        seq![census[0]] + filed(census.skip(1), row)
    }
}

/// A census with more rows, each in its place, and once.
pub open spec fn all_filed(census: Seq<Row>, found: Seq<Row>) -> Seq<Row>
    decreases found.len(),
{
    if found.len() == 0 {
        census
    } else {
        filed(all_filed(census, found.drop_last()), found.last())
    }
}

/// Filing one run and then another is filing the two together.
proof fn lemma_all_filed_adds(census: Seq<Row>, first: Seq<Row>, second: Seq<Row>)
    ensures
        all_filed(census, first + second) == all_filed(all_filed(census, first), second),
    decreases second.len(),
{
    if second.len() == 0 {
        assert(first + second =~= first);
    } else {
        assert((first + second).drop_last() =~= first + second.drop_last());
        assert((first + second).last() == second.last());
        lemma_all_filed_adds(census, first, second.drop_last());
    }
}

impl Lexicon {
    /// The row of a self-issued resource, where an expression is one.
    pub open spec fn own_row(self, expr: Expr) -> Seq<Row> {
        match expr {
            Expr::SelfResource { kind, material, grants } => seq![
                Row {
                    kind: crate::explain::literal::kind_spelling(kind),
                    material: self.material(material@),
                    granting: self.granting(grants),
                },
            ],
            _ => Seq::empty(),
        }
    }

    /// The rows of every self-issued resource an expression mentions, its
    /// own first.
    pub open spec fn mentions(self, expr: Expr) -> Seq<Row>
        decreases expr, 1int,
    {
        self.own_row(expr) + crate::runs::spliced(self.mentions_inside(expr))
    }

    /// The rows of the self-issued resources each expression directly
    /// inside an expression mentions.
    pub open spec fn mentions_inside(self, expr: Expr) -> Seq<Seq<Row>>
        decreases expr, 0int,
    {
        proof {
            expr.lemma_inside_smaller();
        }
        let inside = expr.inside();
        Seq::new(
            inside.len(),
            |i: int|
                if 0 <= i < inside.len() {
                    self.mentions(inside[i])
                } else {
                    Seq::empty()
                },
        )
    }

    /// The row of one resource a method issues.
    pub open spec fn issuance_row(self, issuance: Issuance) -> Row {
        Row {
            kind: crate::explain::literal::kind_spelling(issuance.kind),
            material: "["@ + crate::explain::literal::bytes_spelling(issuance.mark@) + "]"@,
            granting: self.granting(issuance.grants),
        }
    }

    /// The rows of every resource a method issues or mentions.
    pub open spec fn signature_rows(self, signature: MethodSignature) -> Seq<Row> {
        let exprs = signature_inside(signature);
        Seq::new(signature.issues@.len(), |i: int| self.issuance_row(signature.issues@[i]))
            + crate::runs::spliced(Seq::new(exprs.len(), |i: int| self.mentions(exprs[i])))
    }

    /// The rows of every resource a run of methods issues or mentions.
    pub open spec fn method_rows(self, methods: Seq<(Name, MethodSignature)>) -> Seq<Row> {
        crate::runs::spliced(Seq::new(methods.len(), |i: int| self.signature_rows(methods[i].1)))
    }
}

/// Every row a package's methods give rise to, spelled in full.
pub open spec fn occurrences(metadata: PackageMetadata) -> Seq<Row> {
    Lexicon { metadata, census: Seq::empty() }.method_rows(metadata.methods.listed())
}

/// What a rendering of a package resolves names through.
pub open spec fn lexicon_of(metadata: PackageMetadata) -> Lexicon {
    Lexicon { metadata, census: all_filed(Seq::empty(), occurrences(metadata)) }
}

/// Whether one derivation is another, and whether it is listed before it.
fn compared(left: &Derivation, right: &Derivation) -> (r: (bool, bool))
    ensures
        r.0 == (left.row() == right.row()),
        r.1 == row_before(left.row(), right.row()),
{
    if !same_text(left.kind.as_str(), right.kind.as_str()) {
        return (false, left.kind.precedes(&right.kind));
    }
    if !same_text(left.material.as_str(), right.material.as_str()) {
        return (false, left.material.precedes(&right.material));
    }
    (
        same_text(left.granting.as_str(), right.granting.as_str()),
        left.granting.precedes(&right.granting),
    )
}

/// Filing past rows that stay ahead of a row files it in the rest.
proof fn lemma_filed_past(census: Seq<Row>, row: Row, at: int)
    requires
        0 <= at <= census.len(),
        forall|i: int|
            0 <= i < at ==> (#[trigger] census[i]) != row && !row_before(row, census[i]),
    ensures
        filed(census, row) == census.take(at) + filed(census.skip(at), row),
    decreases at,
{
    if at == 0 {
        assert(census.skip(0) =~= census);
        assert(census.take(0) + filed(census, row) =~= filed(census, row));
    } else {
        let rest = census.skip(1);
        assert(census[0] != row && !row_before(row, census[0]));
        assert forall|i: int| 0 <= i < at - 1 implies (#[trigger] rest[i]) != row && !row_before(
            row,
            rest[i],
        ) by {
            assert(rest[i] == census[i + 1]);
        }
        lemma_filed_past(rest, row, at - 1);
        assert(rest.skip(at - 1) =~= census.skip(at));
        assert(seq![census[0]] + (rest.take(at - 1) + filed(census.skip(at), row))
            =~= census.take(at) + filed(census.skip(at), row));
    }
}

/// File one derivation: in its place, and once.
fn file(issued: &mut Vec<Derivation>, derivation: Derivation)
    ensures
        crate::explain::names::rows(final(issued)@) == filed(
            crate::explain::names::rows(old(issued)@),
            derivation.row(),
        ),
{
    let ghost census = crate::explain::names::rows(issued@);
    let ghost row = derivation.row();
    let mut at: usize = 0;
    while at < issued.len()
        invariant
            at <= issued.len(),
            census == crate::explain::names::rows(issued@),
            row == derivation.row(),
            issued@ == old(issued)@,
            forall|i: int|
                0 <= i < at ==> (#[trigger] census[i]) != row && !row_before(row, census[i]),
        decreases issued.len() - at,
    {
        let (same, before) = compared(&derivation, &issued[at]);
        assert(census[at as int] == issued@[at as int].row());
        if same {
            proof {
                lemma_filed_past(census, row, at as int);
                assert(census.skip(at as int)[0] == row);
                assert(census.take(at as int) + census.skip(at as int) =~= census);
            }
            return;
        }
        if before {
            proof {
                lemma_filed_past(census, row, at as int);
                assert(census.skip(at as int)[0] == census[at as int]);
            }
            issued.insert(at, derivation);
            proof {
                assert(crate::explain::names::rows(issued@) =~= census.take(at as int) + (seq![row]
                    + census.skip(at as int)));
            }
            return;
        }
        at = at + 1;
    }
    proof {
        lemma_filed_past(census, row, at as int);
        assert(census.skip(at as int).len() == 0);
    }
    issued.push(derivation);
    proof {
        assert(crate::explain::names::rows(issued@) =~= census.take(at as int) + seq![row]);
    }
}

impl<'a> Names<'a> {
    /// File every self-issued resource an expression mentions.
    fn file_mentions(&self, expr: &Expr, issued: &mut Vec<Derivation>)
        ensures
            crate::explain::names::rows(final(issued)@) == all_filed(
                crate::explain::names::rows(old(issued)@),
                self.lexicon().mentions(*expr),
            ),
        decreases expr,
    {
        let ghost start = crate::explain::names::rows(issued@);
        let ghost own = self.lexicon().own_row(*expr);
        match expr {
            Expr::SelfResource { kind, material, grants } => {
                let derivation = Derivation {
                    kind: resource_kind(*kind).to_owned(),
                    material: self.material(material),
                    granting: self.granting(grants),
                };
                file(issued, derivation);
                assert(own.drop_last() =~= Seq::empty());
                assert(crate::explain::names::rows(issued@) == all_filed(start, own)) by {
                    reveal_with_fuel(all_filed, 2);
                }
            },
            _ => {},
        }
        let ghost inside = expr.inside();
        let ghost parts = self.lexicon().mentions_inside(*expr);
        let children = expr.children();
        proof {
            expr.lemma_inside_smaller();
        }
        let mut i: usize = 0;
        assert(parts.take(0) =~= Seq::empty());
        while i < children.len()
            invariant
                i <= children.len(),
                children@.unref() == inside,
                inside == expr.inside(),
                parts.len() == inside.len(),
                forall|j: int|
                    0 <= j < inside.len() ==> #[trigger] parts[j] == self.lexicon().mentions(
                        inside[j],
                    ),
                forall|j: int|
                    0 <= j < expr.inside().len() ==> #[trigger] decreases_to!(expr => expr.inside()[j]),
                crate::explain::names::rows(issued@) == all_filed(
                    all_filed(start, own),
                    crate::runs::spliced(parts.take(i as int)),
                ),
            decreases children.len() - i,
        {
            assert(children@.unref()[i as int] == *children@[i as int]);
            assert(decreases_to!(expr => expr.inside()[i as int]));
            self.file_mentions(children[i], issued);
            proof {
                crate::runs::lemma_one_more(parts, i as int);
                lemma_all_filed_adds(
                    all_filed(start, own),
                    crate::runs::spliced(parts.take(i as int)),
                    parts[i as int],
                );
            }
            i = i + 1;
        }
        proof {
            assert(parts.take(i as int) =~= parts);
            lemma_all_filed_adds(start, own, crate::runs::spliced(parts));
        }
    }

    /// File every resource a method issues or mentions.
    fn file_signature(&self, signature: &MethodSignature, issued: &mut Vec<Derivation>)
        ensures
            crate::explain::names::rows(final(issued)@) == all_filed(
                crate::explain::names::rows(old(issued)@),
                self.lexicon().signature_rows(*signature),
            ),
    {
        let ghost start = crate::explain::names::rows(issued@);
        let ghost lexicon = self.lexicon();
        let ghost granted = Seq::new(
            signature.issues@.len(),
            |i: int| lexicon.issuance_row(signature.issues@[i]),
        );
        let mut i: usize = 0;
        assert(granted.take(0) =~= Seq::empty());
        while i < signature.issues.len()
            invariant
                i <= signature.issues.len(),
                lexicon == self.lexicon(),
                granted.len() == signature.issues@.len(),
                forall|j: int|
                    0 <= j < granted.len() ==> #[trigger] granted[j] == lexicon.issuance_row(
                        signature.issues@[j],
                    ),
                crate::explain::names::rows(issued@) == all_filed(start, granted.take(i as int)),
            decreases signature.issues.len() - i,
        {
            let issuance = &signature.issues[i];
            let derivation = Derivation {
                kind: resource_kind(issuance.kind).to_owned(),
                material: cat3("[", bytes(issuance.mark.as_slice()).as_str(), "]"),
                granting: self.granting(&issuance.grants),
            };
            file(issued, derivation);
            proof {
                assert(granted.take(i as int + 1).drop_last() =~= granted.take(i as int));
                assert(granted.take(i as int + 1).last() == granted[i as int]);
            }
            i = i + 1;
        }
        assert(granted.take(i as int) =~= granted);
        let exprs = signature_exprs(signature);
        let ghost inside = signature_inside(*signature);
        let ghost parts = Seq::new(inside.len(), |i: int| lexicon.mentions(inside[i]));
        let mut i: usize = 0;
        assert(parts.take(0) =~= Seq::empty());
        while i < exprs.len()
            invariant
                i <= exprs.len(),
                lexicon == self.lexicon(),
                exprs@.unref() == inside,
                parts.len() == inside.len(),
                forall|j: int|
                    0 <= j < parts.len() ==> #[trigger] parts[j] == lexicon.mentions(inside[j]),
                crate::explain::names::rows(issued@) == all_filed(
                    all_filed(start, granted),
                    crate::runs::spliced(parts.take(i as int)),
                ),
            decreases exprs.len() - i,
        {
            assert(exprs@.unref()[i as int] == *exprs@[i as int]);
            self.file_mentions(exprs[i], issued);
            proof {
                crate::runs::lemma_one_more(parts, i as int);
                lemma_all_filed_adds(
                    all_filed(start, granted),
                    crate::runs::spliced(parts.take(i as int)),
                    parts[i as int],
                );
            }
            i = i + 1;
        }
        proof {
            assert(parts.take(i as int) =~= parts);
            lemma_all_filed_adds(start, granted, crate::runs::spliced(parts));
        }
    }

    /// A package's names, with the census of what its methods issue.
    pub fn new(metadata: &'a PackageMetadata) -> (r: Self)
        ensures
            r.lexicon() == lexicon_of(*metadata),
    {
        let bare = Names { metadata, issued: Vec::new() };
        let ghost lexicon = bare.lexicon();
        assert(lexicon.census =~= Seq::empty());
        let ghost methods = metadata.methods.listed();
        let ghost parts = Seq::new(methods.len(), |i: int| lexicon.signature_rows(methods[i].1));
        let mut issued: Vec<Derivation> = Vec::new();
        let mut i: usize = 0;
        assert(parts.take(0) =~= Seq::empty());
        assert(crate::explain::names::rows(issued@) =~= Seq::empty());
        while i < metadata.methods.len()
            invariant
                i <= methods.len(),
                methods == metadata.methods.listed(),
                lexicon == bare.lexicon(),
                parts.len() == methods.len(),
                forall|j: int|
                    0 <= j < parts.len() ==> #[trigger] parts[j] == lexicon.signature_rows(
                        methods[j].1,
                    ),
                crate::explain::names::rows(issued@) == all_filed(
                    Seq::empty(),
                    crate::runs::spliced(parts.take(i as int)),
                ),
            decreases methods.len() - i,
        {
            bare.file_signature(metadata.methods.value(i), &mut issued);
            proof {
                crate::runs::lemma_one_more(parts, i as int);
                lemma_all_filed_adds(
                    Seq::empty(),
                    crate::runs::spliced(parts.take(i as int)),
                    parts[i as int],
                );
            }
            i = i + 1;
        }
        assert(parts.take(i as int) =~= parts);
        Names { metadata, issued }
    }
}

/// Whether a census stands in order, which lists nothing twice.
pub open spec fn is_ordered(census: Seq<Row>) -> bool {
    forall|i: int, j: int|
        0 <= i < j < census.len() ==> row_before(#[trigger] census[i], #[trigger] census[j])
}

/// No row is before itself, and of two that differ one is before the
/// other.
proof fn lemma_rows_are_told_apart(left: Row, right: Row)
    ensures
        !row_before(left, left),
        left == right || row_before(left, right) || row_before(right, left),
{
    crate::table::lemma_not_before_itself(crate::table::text_ordinal(left.granting));
    crate::table::lemma_before_is_total(
        crate::table::text_ordinal(left.kind),
        crate::table::text_ordinal(right.kind),
    );
    crate::table::lemma_before_is_total(
        crate::table::text_ordinal(left.material),
        crate::table::text_ordinal(right.material),
    );
    crate::table::lemma_before_is_total(
        crate::table::text_ordinal(left.granting),
        crate::table::text_ordinal(right.granting),
    );
    crate::table::lemma_text_ordinal(left.kind, right.kind);
    crate::table::lemma_text_ordinal(left.material, right.material);
    crate::table::lemma_text_ordinal(left.granting, right.granting);
}

/// A row before one that is before a third is before the third.
proof fn lemma_row_before_is_transitive(a: Row, b: Row, c: Row)
    requires
        row_before(a, b),
        row_before(b, c),
    ensures
        row_before(a, c),
{
    let kind = |row: Row| crate::table::text_ordinal(row.kind);
    let material = |row: Row| crate::table::text_ordinal(row.material);
    let granting = |row: Row| crate::table::text_ordinal(row.granting);
    crate::table::lemma_text_ordinal(a.kind, c.kind);
    crate::table::lemma_text_ordinal(a.material, c.material);
    crate::table::lemma_not_before_itself(kind(a));
    crate::table::lemma_not_before_itself(material(a));
    if crate::table::before(kind(a), kind(b)) && crate::table::before(kind(b), kind(c)) {
        crate::table::lemma_before_is_transitive(kind(a), kind(b), kind(c));
    }
    if crate::table::before(material(a), material(b)) && crate::table::before(
        material(b),
        material(c),
    ) {
        crate::table::lemma_before_is_transitive(material(a), material(b), material(c));
    }
    if crate::table::before(granting(a), granting(b)) && crate::table::before(
        granting(b),
        granting(c),
    ) {
        crate::table::lemma_before_is_transitive(granting(a), granting(b), granting(c));
    }
}

/// Filing a row keeps a census in order, and adds that row and nothing
/// else.
proof fn lemma_filed(census: Seq<Row>, row: Row)
    requires
        is_ordered(census),
    ensures
        is_ordered(filed(census, row)),
        forall|other: Row|
            #[trigger] filed(census, row).contains(other) == (census.contains(other) || other
                == row),
    decreases census.len(),
{
    let after = filed(census, row);
    if census.len() == 0 {
        assert(after[0] == row);
    } else if census[0] == row {
    } else if row_before(row, census[0]) {
        assert forall|i: int, j: int| 0 <= i < j < after.len() implies row_before(
            #[trigger] after[i],
            #[trigger] after[j],
        ) by {
            assert(after[j] == census[j - 1]);
            if i == 0 {
                if j > 1 {
                    assert(row_before(census[0], census[j - 1]));
                    lemma_row_before_is_transitive(row, census[0], census[j - 1]);
                }
            } else {
                assert(after[i] == census[i - 1]);
            }
        }
        assert forall|other: Row| #[trigger] after.contains(other) == (census.contains(other)
            || other == row) by {
            if census.contains(other) {
                let k = choose|k: int| 0 <= k < census.len() && census[k] == other;
                assert(after[k + 1] == other);
            }
            if other == row {
                assert(after[0] == row);
            }
            if after.contains(other) {
                let k = choose|k: int| 0 <= k < after.len() && after[k] == other;
                if k > 0 {
                    assert(census[k - 1] == other);
                }
            }
        }
    } else {
        let first = census[0];
        let rest = census.skip(1);
        assert(forall|i: int| 0 <= i < rest.len() ==> #[trigger] rest[i] == census[i + 1]);
        assert(is_ordered(rest));
        lemma_filed(rest, row);
        let later = filed(rest, row);
        lemma_rows_are_told_apart(first, row);
        assert forall|i: int, j: int| 0 <= i < j < after.len() implies row_before(
            #[trigger] after[i],
            #[trigger] after[j],
        ) by {
            assert(after[j] == later[j - 1]);
            if i == 0 {
                assert(later.contains(after[j]));
                if rest.contains(after[j]) {
                    let k = choose|k: int| 0 <= k < rest.len() && rest[k] == after[j];
                    assert(row_before(census[0], census[k + 1]));
                }
            } else {
                assert(after[i] == later[i - 1]);
            }
        }
        assert forall|other: Row| #[trigger] after.contains(other) == (census.contains(other)
            || other == row) by {
            if census.contains(other) {
                let k = choose|k: int| 0 <= k < census.len() && census[k] == other;
                if k == 0 {
                    assert(after[0] == other);
                } else {
                    assert(rest[k - 1] == other);
                    assert(later.contains(other));
                }
            }
            if other == row {
                assert(later.contains(other));
            }
            if later.contains(other) {
                let k = choose|k: int| 0 <= k < later.len() && later[k] == other;
                assert(after[k + 1] == other);
            }
            if after.contains(other) {
                let k = choose|k: int| 0 <= k < after.len() && after[k] == other;
                if k == 0 {
                    assert(census[0] == other);
                } else {
                    assert(later[k - 1] == other);
                    assert(later.contains(other));
                    if rest.contains(other) {
                        let m = choose|m: int| 0 <= m < rest.len() && rest[m] == other;
                        assert(census[m + 1] == other);
                    }
                }
            }
        }
    }
}

/// Filing rows keeps a census in order, and adds those rows and nothing
/// else.
proof fn lemma_all_filed(census: Seq<Row>, found: Seq<Row>)
    requires
        is_ordered(census),
    ensures
        is_ordered(all_filed(census, found)),
        forall|other: Row|
            #[trigger] all_filed(census, found).contains(other) == (census.contains(other)
                || found.contains(other)),
    decreases found.len(),
{
    if found.len() > 0 {
        let before = found.drop_last();
        lemma_all_filed(census, before);
        lemma_filed(all_filed(census, before), found.last());
        assert forall|other: Row| #[trigger] found.contains(other) == (before.contains(other)
            || other == found.last()) by {
            if found.contains(other) {
                let k = choose|k: int| 0 <= k < found.len() && found[k] == other;
                if k < found.len() - 1 {
                    assert(before[k] == other);
                }
            }
            if before.contains(other) {
                let k = choose|k: int| 0 <= k < before.len() && before[k] == other;
                assert(found[k] == other);
            }
            if other == found.last() {
                assert(found[found.len() - 1] == other);
            }
        }
    }
}

/// A self-issued resource is spelled once: the resources table lists
/// exactly the resources the package's methods issue or mention, in order
/// and none of them twice.
pub proof fn law_a_resource_is_spelled_once(metadata: PackageMetadata)
    ensures
        is_ordered(lexicon_of(metadata).census),
        lexicon_of(metadata).census.no_duplicates(),
        forall|row: Row|
            #[trigger] lexicon_of(metadata).census.contains(row) == occurrences(
                metadata,
            ).contains(row),
{
    lemma_all_filed(Seq::empty(), occurrences(metadata));
    let census = lexicon_of(metadata).census;
    assert forall|i: int, j: int| 0 <= i < census.len() && 0 <= j < census.len() && i
        != j implies census[i] != census[j] by {
        lemma_rows_are_told_apart(census[i], census[j]);
        if i < j {
            assert(row_before(census[i], census[j]));
        } else {
            assert(row_before(census[j], census[i]));
        }
    }
}

} // verus!
