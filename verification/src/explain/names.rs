//! Expressions, slots and grants, by the names a package gives them.
use vstd::prelude::*;

use crate::dsl::{Expr, SlotRef};
use crate::explain::literal::{bytes, resource_kind, value_text};
use crate::metadata::PackageMetadata;
use crate::resource::{GrantRuleExpr, GrantSubject, GrantedBehaviour, GrantsExpr, ResourceKind};
use crate::rule::Rule;
use crate::text::{cat2, cat3, cat4, cat5, cat6, decimal, join, same_text};
use crate::types::SlotId;
use crate::vocabulary::{
    AUTH, CONFIG, HALT, INSTANCE, NF_VAULT, NULLIFIER_SLOT, PACKAGE_SLOT, RESOURCE, VAULT,
};

verus! {

/// How tightly a selection binds: below every operator, which is what
/// parenthesizes a selection wherever one is an operand.
pub const SELECT: u8 = 0;

/// How tightly a disjunction binds.
pub const OR: u8 = 1;

/// How tightly a conjunction binds.
pub const AND: u8 = 2;

/// How tightly a comparison binds.
pub const COMPARE: u8 = 3;

/// How tightly a sum binds.
pub const SUM: u8 = 4;

/// How tightly a negation binds.
pub const UNARY: u8 = 5;

/// How tightly anything that is one piece binds.
pub const ATOM: u8 = 6;

/// One self-issued resource a package's methods derive: its kind, what
/// names it, and what its entries grant, each as text.
#[derive(Debug, PartialEq, Eq)]
pub struct Derivation {
    /// What the resource is.
    pub kind: String,
    /// What names it.
    pub material: String,
    /// What its entries grant, or nothing where there are none.
    pub granting: String,
}

/// A derivation, as the texts it is made of.
pub struct Row {
    /// What the resource is.
    pub kind: Seq<char>,
    /// What names it.
    pub material: Seq<char>,
    /// What its entries grant, or nothing where there are none.
    pub granting: Seq<char>,
}

impl Derivation {
    /// The texts it is made of.
    pub open spec fn row(self) -> Row {
        Row { kind: self.kind@, material: self.material@, granting: self.granting@ }
    }
}

/// The rows of a run of derivations.
pub open spec fn rows(derivations: Seq<Derivation>) -> Seq<Row> {
    Seq::new(derivations.len(), |i: int| derivations[i].row())
}

/// How many rows answer to a kind and a material.
pub open spec fn answering(census: Seq<Row>, kind: Seq<char>, material: Seq<char>) -> nat
    decreases census.len(),
{
    if census.len() == 0 {
        0
    } else {
        answering(census.drop_last(), kind, material) + (if census.last().kind == kind
            && census.last().material == material {
            1nat
        } else {
            0nat
        })
    }
}

/// What a rendering resolves names through: a package's tables, and the
/// census of the resources it issues.
pub struct Lexicon {
    /// The package.
    pub metadata: PackageMetadata,
    /// The resources it issues, in order.
    pub census: Seq<Row>,
}

/// How tightly an expression binds.
pub open spec fn strength(expr: Expr) -> int {
    match expr {
        Expr::Add(_, _) => SUM as int,
        Expr::Not(_) => UNARY as int,
        Expr::And(_, _) => AND as int,
        Expr::Or(_, _) => OR as int,
        Expr::Eq(_, _) => COMPARE as int,
        Expr::Lt(_, _) => COMPARE as int,
        Expr::Contains { .. } => COMPARE as int,
        Expr::If { .. } => SELECT as int,
        _ => ATOM as int,
    }
}

/// What the protocol calls a slot of its own, where it has a name for it.
pub open spec fn protocol_name(slot: u16) -> Option<Seq<char>> {
    if slot == VAULT {
        Some("vault"@)
    } else if slot == HALT {
        Some("halt"@)
    } else if slot == CONFIG {
        Some("config"@)
    } else if slot == AUTH {
        Some("auth"@)
    } else if slot == RESOURCE {
        Some("resource"@)
    } else if slot == NF_VAULT {
        Some("nf-vault"@)
    } else if slot == INSTANCE {
        Some("instance"@)
    } else if slot == PACKAGE_SLOT {
        Some("package"@)
    } else if slot == NULLIFIER_SLOT {
        Some("nullifier"@)
    } else {
        None
    }
}

/// What the protocol calls a slot of its own, where it has a name for it.
fn protocol_word(slot: u16) -> (r: Option<&'static str>)
    ensures
        match r {
            Some(word) => protocol_name(slot) == Some(word@),
            None => protocol_name(slot) is None,
        },
{
    if slot == VAULT {
        Some("vault")
    } else if slot == HALT {
        Some("halt")
    } else if slot == CONFIG {
        Some("config")
    } else if slot == AUTH {
        Some("auth")
    } else if slot == RESOURCE {
        Some("resource")
    } else if slot == NF_VAULT {
        Some("nf-vault")
    } else if slot == INSTANCE {
        Some("instance")
    } else if slot == PACKAGE_SLOT {
        Some("package")
    } else if slot == NULLIFIER_SLOT {
        Some("nullifier")
    } else {
        None
    }
}

impl Lexicon {
    /// Whether one derivation answers to this kind and material, so a
    /// mention may leave its grants to the resources table.
    pub open spec fn is_tabled(self, kind: Seq<char>, material: Seq<char>) -> bool {
        answering(self.census, kind, material) == 1
    }

    /// A configuration field: by the name its author spelled, or by its
    /// index past the table.
    pub open spec fn config(self, field: u32) -> Seq<char> {
        if field < self.metadata.config@.len() {
            "config."@ + self.metadata.config@[field as int]@
        } else {
            "config["@ + crate::text::decimal_text(field as nat) + "]"@
        }
    }

    /// A slot written down: by the protocol's name for it, by the name the
    /// package declares it under, or by its number.
    pub open spec fn fixed_slot(self, slot: SlotId) -> Seq<char> {
        match protocol_name(slot.0) {
            Some(name) => name,
            None => match self.metadata.state.under(crate::table::TableKey::ordinal(slot)) {
                Some(shape) => shape.name@,
                None => "slot "@ + crate::text::decimal_text(slot.0 as nat),
            },
        }
    }

    /// Whom a granted rule names.
    pub open spec fn grant_claim(self, claim: GrantSubject) -> Seq<char> {
        match claim {
            GrantSubject::SelfAddr => "the issuer"@,
            GrantSubject::SelfBadge { mark, .. } => "the issuer's "@
                + crate::explain::literal::bytes_spelling(mark@) + " badge"@,
            GrantSubject::SelfInstance { mark, id, .. } => "instance "@
                + crate::text::decimal_text(id as nat) + " of the issuer's "@
                + crate::explain::literal::bytes_spelling(mark@) + " badge"@,
            GrantSubject::Config(field) => self.config(field),
        }
    }

    /// An actor question's entry: who must approve.
    pub open spec fn grant_rule(self, rule: GrantRuleExpr) -> Seq<char>
        decreases rule,
    {
        match rule {
            Rule::Require(claim) => self.grant_claim(claim),
            Rule::CountOf { count, rules } => crate::text::decimal_text(count as nat) + " of ("@
                + crate::text::joined_text(self.grant_rules(rules@), ", "@) + ")"@,
        }
    }

    /// Actor questions' entries, one for each rule.
    pub open spec fn grant_rules(self, rules: Seq<GrantRuleExpr>) -> Seq<Seq<char>>
        decreases rules,
    {
        Seq::new(
            rules.len(),
            |i: int|
                if 0 <= i < rules.len() {
                    self.grant_rule(rules[i])
                } else {
                    Seq::empty()
                },
        )
    }

    /// What one declared entry admits. Which question it asks is the
    /// subject's answer: an actor question says who must approve, and a
    /// holder question says what its subject can be asked.
    pub open spec fn grant_entry(self, behaviour: GrantedBehaviour, rule: GrantRuleExpr) -> Seq<
        char,
    >
        decreases rule,
    {
        if rule.is_always() {
            "anyone"@
        } else if rule.is_never() {
            "nobody"@
        } else if behaviour.about_the_actor() {
            self.grant_rule(rule)
        } else {
            match rule {
                Rule::Require(GrantSubject::SelfAddr) => "whatever transaction the issuer approves"@,
                Rule::Require(GrantSubject::Config(field)) => "whoever answers for "@
                    + self.config(field),
                Rule::Require(claim) => "whoever holds "@ + self.grant_claim(claim),
                Rule::CountOf { count, rules } => crate::text::decimal_text(count as nat)
                    + " of ("@ + crate::text::joined_text(
                    self.grant_entries(behaviour, rules@),
                    ", "@,
                ) + ")"@,
            }
        }
    }

    /// What entries admit, one for each rule.
    pub open spec fn grant_entries(
        self,
        behaviour: GrantedBehaviour,
        rules: Seq<GrantRuleExpr>,
    ) -> Seq<Seq<char>>
        decreases rules,
    {
        Seq::new(
            rules.len(),
            |i: int|
                if 0 <= i < rules.len() {
                    self.grant_entry(behaviour, rules[i])
                } else {
                    Seq::empty()
                },
        )
    }

    /// What a resource's declared entries grant, one text for each entry.
    pub open spec fn granted(self, entries: Seq<(GrantedBehaviour, GrantRuleExpr)>) -> Seq<
        Seq<char>,
    > {
        Seq::new(
            entries.len(),
            |i: int| entries[i].0.label() + " to "@ + self.grant_entry(entries[i].0, entries[i].1),
        )
    }

    /// What a resource's declared entries grant, or nothing where there
    /// are none.
    pub open spec fn granting(self, grants: GrantsExpr) -> Seq<char> {
        if grants.listed().len() == 0 {
            Seq::empty()
        } else {
            "granting "@ + crate::text::joined_text(self.granted(grants.listed()), " and "@)
        }
    }

    /// What a resource's declared entries grant, as a trailer on the
    /// derivation that folds them.
    pub open spec fn grants_of(self, grants: GrantsExpr) -> Seq<char> {
        if grants.listed().len() == 0 {
            Seq::empty()
        } else {
            ", "@ + self.granting(grants)
        }
    }

    /// A slot: by its name where it is written down, and by the argument
    /// naming it otherwise.
    pub open spec fn slot(self, slot: SlotRef) -> Seq<char>
        decreases slot, 0int,
    {
        match slot {
            SlotRef::Fixed(held) => self.fixed_slot(held),
            SlotRef::Reached(expr) => self.expr(*expr, ATOM as int),
        }
    }

    /// Expressions, each free to be anything.
    pub open spec fn exprs(self, exprs: Seq<Expr>) -> Seq<Seq<char>>
        decreases exprs, 2int,
    {
        Seq::new(
            exprs.len(),
            |i: int|
                if 0 <= i < exprs.len() {
                    self.expr(exprs[i], SELECT as int)
                } else {
                    Seq::empty()
                },
        )
    }

    /// The material a child key or a collection identity folds, where
    /// there is any.
    pub open spec fn material(self, material: Seq<Expr>) -> Seq<char>
        decreases material, 3int,
    {
        if material.len() == 0 {
            Seq::empty()
        } else {
            "["@ + crate::text::joined_text(self.exprs(material), ", "@) + "]"@
        }
    }

    /// An expression, parenthesized exactly where `outer` binds tighter
    /// than it does.
    pub open spec fn expr(self, expr: Expr, outer: int) -> Seq<char>
        decreases expr, 1int,
    {
        if strength(expr) < outer {
            "("@ + self.term(expr) + ")"@
        } else {
            self.term(expr)
        }
    }

    /// One expression node.
    pub open spec fn term(self, expr: Expr) -> Seq<char>
        decreases expr, 0int,
    {
        match expr {
            Expr::Literal(value) => crate::explain::literal::value_spelling(value),
            Expr::Arg(position) => "arg"@ + crate::text::decimal_text(position as nat),
            Expr::Config(field) => self.config(field),
            Expr::Binding(level) => if level == 0 {
                "element"@
            } else {
                "element^"@ + crate::text::decimal_text(level as nat)
            },
            Expr::SelfAddr => "self"@,
            Expr::SelfRecord => "self.record"@,
            Expr::Field(inner, field) => self.expr(*inner, ATOM as int) + "."@
                + crate::text::decimal_text(field as nat),
            Expr::ResourceOf(edge) => "resource-of("@ + self.expr(*edge, SELECT as int) + ")"@,
            Expr::IdsOf(edge) => "ids-of("@ + self.expr(*edge, SELECT as int) + ")"@,
            Expr::Len(list) => "len("@ + self.expr(*list, SELECT as int) + ")"@,
            Expr::Only(list) => "only("@ + self.expr(*list, SELECT as int) + ")"@,
            Expr::List(elements) => "["@ + crate::text::joined_text(
                self.exprs(elements@),
                ", "@,
            ) + "]"@,
            Expr::Tuple(fields) => "("@ + crate::text::joined_text(self.exprs(fields@), ", "@)
                + ")"@,
            Expr::NfBucket { resource, ids } => "edge("@ + self.expr(*resource, SELECT as int)
                + " × "@ + self.expr(*ids, SELECT as int) + ")"@,
            Expr::Lookup { map, key } => self.expr(*map, ATOM as int) + "["@ + self.expr(
                *key,
                SELECT as int,
            ) + "]"@,
            Expr::SelfResource { kind, material, grants } => "self-issued("@
                + crate::explain::literal::kind_spelling(kind) + self.material(material@) + ")"@
                + (if self.is_tabled(
                crate::explain::literal::kind_spelling(kind),
                self.material(material@),
            ) {
                Seq::empty()
            } else {
                self.grants_of(grants)
            }),
            Expr::ChildKey { owner, slot, material } => self.expr(*owner, ATOM as int) + "."@
                + self.slot(slot) + self.material(material@),
            Expr::FreshId { slot } => "fresh-id("@ + crate::text::decimal_text(slot as nat) + ")"@,
            Expr::FreshKey { slot } => "fresh-key("@ + crate::text::decimal_text(slot as nat)
                + ")"@,
            Expr::Pack { hi, lo } => "pack("@ + self.expr(*hi, SELECT as int) + ", "@ + self.expr(
                *lo,
                SELECT as int,
            ) + ")"@,
            Expr::OrderKey { owner, slot, material } => "order-key("@ + (self.expr(
                *owner,
                ATOM as int,
            ) + "."@ + self.fixed_slot(slot) + self.material(material@)) + ")"@,
            Expr::Add(left, right) => self.expr(*left, SUM as int) + " + "@ + self.expr(
                *right,
                SUM + 1,
            ),
            Expr::Not(judgment) => "!"@ + self.expr(*judgment, UNARY as int),
            Expr::And(left, right) => self.expr(*left, AND as int) + " and "@ + self.expr(
                *right,
                AND + 1,
            ),
            Expr::Or(left, right) => self.expr(*left, OR as int) + " or "@ + self.expr(
                *right,
                OR + 1,
            ),
            Expr::Eq(left, right) => self.expr(*left, COMPARE + 1) + " == "@ + self.expr(
                *right,
                COMPARE + 1,
            ),
            Expr::Lt(left, right) => self.expr(*left, COMPARE + 1) + " < "@ + self.expr(
                *right,
                COMPARE + 1,
            ),
            Expr::Contains { map, key } => self.expr(*key, COMPARE + 1) + " in "@ + self.expr(
                *map,
                COMPARE + 1,
            ),
            Expr::If { cond, chosen, otherwise } => "if "@ + self.expr(*cond, SELECT as int)
                + " then "@ + self.expr(*chosen, SELECT as int) + " else "@ + self.expr(
                *otherwise,
                SELECT as int,
            ),
        }
    }
}

/// The tables a rendering resolves names through, and the census of
/// self-issued resources that lets a mention leave its grants to the
/// resources table.
pub struct Names<'a> {
    /// The package.
    pub metadata: &'a PackageMetadata,
    /// Every self-issued resource the package's methods derive.
    ///
    /// A kind and material with one set of grants name one derivation, so a
    /// mention of it renders without the grants and the resources table
    /// says them once. With several they are resources a mark cannot tell
    /// apart, and every mention stays fully spelled.
    pub issued: Vec<Derivation>,
}

impl<'a> Names<'a> {
    /// What the names resolve to.
    pub open spec fn lexicon(self) -> Lexicon {
        Lexicon { metadata: *self.metadata, census: rows(self.issued@) }
    }

    /// Whether one derivation answers to this kind and material, so a
    /// mention may leave its grants to the resources table.
    pub fn tabled(&self, kind: ResourceKind, material: &str) -> (r: bool)
        ensures
            r == self.lexicon().is_tabled(
                crate::explain::literal::kind_spelling(kind),
                material@,
            ),
    {
        let label = resource_kind(kind);
        let ghost census = rows(self.issued@);
        let mut found: usize = 0;
        let mut i: usize = 0;
        while i < self.issued.len()
            invariant
                i <= self.issued.len(),
                found <= i,
                census == rows(self.issued@),
                found == answering(census.take(i as int), label@, material@),
            decreases self.issued.len() - i,
        {
            proof {
                assert(census.take(i as int + 1).drop_last() =~= census.take(i as int));
                assert(census.take(i as int + 1).last() == self.issued@[i as int].row());
            }
            if same_text(self.issued[i].kind.as_str(), label) && same_text(
                self.issued[i].material.as_str(),
                material,
            ) {
                found = found + 1;
            }
            i = i + 1;
        }
        assert(census.take(i as int) =~= census);
        found == 1
    }

    /// A configuration field, by the name its author spelled.
    pub fn config(&self, field: u32) -> (r: String)
        ensures
            r@ == self.lexicon().config(field),
    {
        if (field as usize) < self.metadata.config.len() {
            cat2("config.", self.metadata.config[field as usize].as_str())
        } else {
            cat3("config[", decimal(field as u128).as_str(), "]")
        }
    }

    /// A slot the declaration wrote down, by the name it goes under.
    pub fn fixed_slot(&self, slot: SlotId) -> (r: String)
        ensures
            r@ == self.lexicon().fixed_slot(slot),
    {
        match protocol_word(slot.0) {
            Some(word) => word.to_owned(),
            None => match self.metadata.state.get(&slot) {
                Some(shape) => shape.name.clone(),
                None => cat2("slot ", decimal(slot.0 as u128).as_str()),
            },
        }
    }

    /// What one declared claim names.
    pub fn grant_claim(&self, claim: &GrantSubject) -> (r: String)
        ensures
            r@ == self.lexicon().grant_claim(*claim),
    {
        match claim {
            GrantSubject::SelfAddr => "the issuer".to_owned(),
            GrantSubject::SelfBadge { mark, .. } => cat3(
                "the issuer's ",
                bytes(mark.as_slice()).as_str(),
                " badge",
            ),
            GrantSubject::SelfInstance { mark, id, .. } => cat5(
                "instance ",
                decimal(*id as u128).as_str(),
                " of the issuer's ",
                bytes(mark.as_slice()).as_str(),
                " badge",
            ),
            GrantSubject::Config(field) => self.config(*field),
        }
    }

    /// An actor question's entry, which always names who must approve.
    pub fn grant_rule(&self, rule: &GrantRuleExpr) -> (r: String)
        ensures
            r@ == self.lexicon().grant_rule(*rule),
        decreases rule,
    {
        match rule {
            Rule::Require(claim) => self.grant_claim(claim),
            Rule::CountOf { count, rules } => {
                let mut branches: Vec<String> = Vec::new();
                let mut i: usize = 0;
                while i < rules.len()
                    invariant
                        i <= rules.len(),
                        branches.len() == i,
                        *rule matches Rule::CountOf { rules: held, .. } && held == *rules,
                        forall|j: int|
                            0 <= j < i ==> (#[trigger] branches@[j])@ == self.lexicon().grant_rule(
                                rules@[j],
                            ),
                    decreases rules.len() - i,
                {
                    branches.push(self.grant_rule(&rules[i]));
                    i = i + 1;
                }
                assert(crate::text::texts(branches@) =~= self.lexicon().grant_rules(rules@));
                cat4(
                    decimal(*count as u128).as_str(),
                    " of (",
                    join(&branches, ", ").as_str(),
                    ")",
                )
            },
        }
    }

    /// What one declared entry admits, as a reader of the resource sees it.
    ///
    /// Which question an entry asks is the subject's answer, not the
    /// behaviour's. An actor question always reads a claim, so it says who
    /// must approve. A holder question reads whichever its subject can be
    /// asked: a resource can be held, so naming one asks a standing fact
    /// about the party whose cell moves; an identity cannot, so naming one
    /// asks whether this transaction carried a claim on it.
    ///
    /// A configuration field carries an address and no class until an
    /// instance supplies one, so this cannot say which of the two it will
    /// be, and does not pretend to.
    pub fn grant_entry(&self, behaviour: GrantedBehaviour, rule: &GrantRuleExpr) -> (r: String)
        ensures
            r@ == self.lexicon().grant_entry(behaviour, *rule),
        decreases rule,
    {
        if rule.says_always() {
            return "anyone".to_owned();
        }
        if rule.says_never() {
            return "nobody".to_owned();
        }
        if behaviour.asks_about_the_actor() {
            return self.grant_rule(rule);
        }
        match rule {
            Rule::Require(claim) => match claim {
                GrantSubject::SelfAddr => "whatever transaction the issuer approves".to_owned(),
                GrantSubject::Config(field) => cat2(
                    "whoever answers for ",
                    self.config(*field).as_str(),
                ),
                _ => cat2("whoever holds ", self.grant_claim(claim).as_str()),
            },
            // A threshold over subjects that need not agree about which
            // question they ask, so each branch says for itself.
            Rule::CountOf { count, rules } => {
                let mut branches: Vec<String> = Vec::new();
                let mut i: usize = 0;
                while i < rules.len()
                    invariant
                        i <= rules.len(),
                        branches.len() == i,
                        *rule matches Rule::CountOf { rules: held, .. } && held == *rules,
                        forall|j: int|
                            0 <= j < i ==> (#[trigger] branches@[j])@
                                == self.lexicon().grant_entry(behaviour, rules@[j]),
                    decreases rules.len() - i,
                {
                    branches.push(self.grant_entry(behaviour, &rules[i]));
                    i = i + 1;
                }
                assert(crate::text::texts(branches@) =~= self.lexicon().grant_entries(
                    behaviour,
                    rules@,
                ));
                cat4(
                    decimal(*count as u128).as_str(),
                    " of (",
                    join(&branches, ", ").as_str(),
                    ")",
                )
            },
        }
    }

    /// What a resource's declared entries grant, as a trailer on the
    /// derivation that folds them.
    pub fn grants_of(&self, grants: &GrantsExpr) -> (r: String)
        ensures
            r@ == self.lexicon().grants_of(*grants),
    {
        if grants.is_empty() {
            return String::new();
        }
        cat2(", ", self.granting(grants).as_str())
    }

    /// What a resource's declared entries grant, or nothing where there
    /// are none.
    pub fn granting(&self, grants: &GrantsExpr) -> (r: String)
        ensures
            r@ == self.lexicon().granting(*grants),
    {
        if grants.is_empty() {
            return String::new();
        }
        let mut granted: Vec<String> = Vec::new();
        let mut i: usize = 0;
        while i < grants.len()
            invariant
                i <= grants.listed().len(),
                granted.len() == i,
                forall|j: int|
                    0 <= j < i ==> (#[trigger] granted@[j])@ == self.lexicon().granted(
                        grants.listed(),
                    )[j],
            decreases grants.listed().len() - i,
        {
            let behaviour = grants.behaviour(i);
            granted.push(
                cat3(
                    behaviour.word(),
                    " to ",
                    self.grant_entry(behaviour, grants.rule(i)).as_str(),
                ),
            );
            i = i + 1;
        }
        assert(crate::text::texts(granted@) =~= self.lexicon().granted(grants.listed()));
        cat2("granting ", join(&granted, " and ").as_str())
    }

    /// A slot the declaration wrote down, by the name it goes under, or,
    /// where an argument names it, that argument.
    pub fn slot(&self, slot: &SlotRef) -> (r: String)
        ensures
            r@ == self.lexicon().slot(*slot),
        decreases slot, 0int,
    {
        match slot {
            SlotRef::Fixed(held) => self.fixed_slot(*held),
            SlotRef::Reached(expr) => self.expr(expr, ATOM),
        }
    }

    /// A comma-separated run of expressions, each free to be anything.
    pub fn list(&self, elements: &Vec<Expr>) -> (r: String)
        ensures
            r@ == crate::text::joined_text(self.lexicon().exprs(elements@), ", "@),
        decreases elements, 2int,
    {
        let mut rendered: Vec<String> = Vec::new();
        let mut i: usize = 0;
        while i < elements.len()
            invariant
                i <= elements.len(),
                rendered.len() == i,
                forall|j: int|
                    0 <= j < i ==> (#[trigger] rendered@[j])@ == self.lexicon().expr(
                        elements@[j],
                        SELECT as int,
                    ),
            decreases elements.len() - i,
        {
            rendered.push(self.expr(&elements[i], SELECT));
            i = i + 1;
        }
        assert(crate::text::texts(rendered@) =~= self.lexicon().exprs(elements@));
        join(&rendered, ", ")
    }

    /// The material a child key or a collection identity folds, where
    /// there is any.
    pub fn material(&self, material: &Vec<Expr>) -> (r: String)
        ensures
            r@ == self.lexicon().material(material@),
        decreases material, 3int,
    {
        if material.len() == 0 {
            return String::new();
        }
        cat3("[", self.list(material).as_str(), "]")
    }

    /// An expression, parenthesized exactly where `outer` binds tighter
    /// than it does.
    pub fn expr(&self, expr: &Expr, outer: u8) -> (r: String)
        ensures
            r@ == self.lexicon().expr(*expr, outer as int),
        decreases expr, 1int,
    {
        let (rendered, strength) = self.term(expr);
        if strength < outer {
            cat3("(", rendered.as_str(), ")")
        } else {
            rendered
        }
    }

    /// One expression node and how tightly it binds.
    pub fn term(&self, expr: &Expr) -> (r: (String, u8))
        ensures
            r.0@ == self.lexicon().term(*expr),
            r.1 == strength(*expr),
        decreases expr, 0int,
    {
        match expr {
            Expr::Literal(value) => (value_text(value), ATOM),
            Expr::Arg(position) => (cat2("arg", decimal(*position as u128).as_str()), ATOM),
            Expr::Config(field) => (self.config(*field), ATOM),
            // Zero names the innermost binding, so the caret counts levels
            // outward from the loop the term sits in.
            Expr::Binding(level) => {
                if *level == 0 {
                    ("element".to_owned(), ATOM)
                } else {
                    (cat2("element^", decimal(*level as u128).as_str()), ATOM)
                }
            },
            Expr::SelfAddr => ("self".to_owned(), ATOM),
            Expr::SelfRecord => ("self.record".to_owned(), ATOM),
            Expr::Field(inner, field) => (
                cat3(self.expr(inner, ATOM).as_str(), ".", decimal(*field as u128).as_str()),
                ATOM,
            ),
            Expr::ResourceOf(edge) => (
                cat3("resource-of(", self.expr(edge, SELECT).as_str(), ")"),
                ATOM,
            ),
            Expr::IdsOf(edge) => (cat3("ids-of(", self.expr(edge, SELECT).as_str(), ")"), ATOM),
            Expr::Len(list) => (cat3("len(", self.expr(list, SELECT).as_str(), ")"), ATOM),
            Expr::Only(list) => (cat3("only(", self.expr(list, SELECT).as_str(), ")"), ATOM),
            Expr::List(elements) => (cat3("[", self.list(elements).as_str(), "]"), ATOM),
            Expr::Tuple(fields) => (cat3("(", self.list(fields).as_str(), ")"), ATOM),
            Expr::NfBucket { resource, ids } => (
                cat5(
                    "edge(",
                    self.expr(resource, SELECT).as_str(),
                    " × ",
                    self.expr(ids, SELECT).as_str(),
                    ")",
                ),
                ATOM,
            ),
            Expr::Lookup { map, key } => (
                cat4(
                    self.expr(map, ATOM).as_str(),
                    "[",
                    self.expr(key, SELECT).as_str(),
                    "]",
                ),
                ATOM,
            ),
            Expr::SelfResource { kind, material, grants } => {
                let named = self.material(material);
                let granted = if self.tabled(*kind, named.as_str()) {
                    String::new()
                } else {
                    self.grants_of(grants)
                };
                (
                    cat5(
                        "self-issued(",
                        resource_kind(*kind),
                        named.as_str(),
                        ")",
                        granted.as_str(),
                    ),
                    ATOM,
                )
            },
            Expr::ChildKey { owner, slot, material } => (
                cat4(
                    self.expr(owner, ATOM).as_str(),
                    ".",
                    self.slot(slot).as_str(),
                    self.material(material).as_str(),
                ),
                ATOM,
            ),
            Expr::FreshId { slot } => (
                cat3("fresh-id(", decimal(*slot as u128).as_str(), ")"),
                ATOM,
            ),
            Expr::FreshKey { slot } => (
                cat3("fresh-key(", decimal(*slot as u128).as_str(), ")"),
                ATOM,
            ),
            Expr::Pack { hi, lo } => (
                cat5(
                    "pack(",
                    self.expr(hi, SELECT).as_str(),
                    ", ",
                    self.expr(lo, SELECT).as_str(),
                    ")",
                ),
                ATOM,
            ),
            Expr::OrderKey { owner, slot, material } => {
                let collection = cat4(
                    self.expr(owner, ATOM).as_str(),
                    ".",
                    self.fixed_slot(*slot).as_str(),
                    self.material(material).as_str(),
                );
                (cat3("order-key(", collection.as_str(), ")"), ATOM)
            },
            Expr::Add(left, right) => (
                cat3(self.expr(left, SUM).as_str(), " + ", self.expr(right, SUM + 1).as_str()),
                SUM,
            ),
            Expr::Not(judgment) => (cat2("!", self.expr(judgment, UNARY).as_str()), UNARY),
            Expr::And(left, right) => (
                cat3(self.expr(left, AND).as_str(), " and ", self.expr(right, AND + 1).as_str()),
                AND,
            ),
            Expr::Or(left, right) => (
                cat3(self.expr(left, OR).as_str(), " or ", self.expr(right, OR + 1).as_str()),
                OR,
            ),
            Expr::Eq(left, right) => (
                cat3(
                    self.expr(left, COMPARE + 1).as_str(),
                    " == ",
                    self.expr(right, COMPARE + 1).as_str(),
                ),
                COMPARE,
            ),
            Expr::Lt(left, right) => (
                cat3(
                    self.expr(left, COMPARE + 1).as_str(),
                    " < ",
                    self.expr(right, COMPARE + 1).as_str(),
                ),
                COMPARE,
            ),
            Expr::Contains { map, key } => (
                cat3(
                    self.expr(key, COMPARE + 1).as_str(),
                    " in ",
                    self.expr(map, COMPARE + 1).as_str(),
                ),
                COMPARE,
            ),
            Expr::If { cond, chosen, otherwise } => (
                cat6(
                    "if ",
                    self.expr(cond, SELECT).as_str(),
                    " then ",
                    self.expr(chosen, SELECT).as_str(),
                    " else ",
                    self.expr(otherwise, SELECT).as_str(),
                ),
                SELECT,
            ),
        }
    }
}

} // verus!
