//! Methods and tables: the whole of a package, as text.
use vstd::prelude::*;
use vstd::string::StringExecFns;

use crate::dsl::Expr;
use crate::explain::literal::{bytes, resource_kind, returns_text, shape_of, slot_kind};
use crate::explain::names::{Lexicon, Names, Row, ATOM, SELECT};
use crate::metadata::{LeafForm, PackageMetadata, SlotShape};
use crate::shape::{ShapeNode, ShapeTable, TypeShape};
use crate::signature::{Issuance, Issued, MethodSignature, ParamType};
use crate::text::{cat2, cat3, cat5, cat6, concat, decimal, join, to_the_right};
use crate::types::SlotId;

verus! {

/// What a parameter is, spelled. The width is the signature's own
/// statement; the general label would drop the one fact it fixes.
pub open spec fn param_spelling(param: ParamType) -> Seq<char> {
    match param {
        ParamType::BytesExact(width) => "[u8; "@ + crate::text::decimal_text(width as nat) + "]"@,
        _ => param.label()@,
    }
}

/// What parameters are, each spelled.
pub open spec fn param_spellings(params: Seq<ParamType>) -> Seq<Seq<char>> {
    Seq::new(params.len(), |i: int| param_spelling(params[i]))
}

/// Which way a supply changes, as the label a method's listing gives it.
pub open spec fn direction_spelling(direction: Issued) -> Seq<char> {
    match direction {
        Issued::Minted => "mints    "@,
        Issued::Burned => "burns    "@,
        Issued::Either => "issues   "@,
    }
}

/// The lines of one index-to-name table.
pub open spec fn name_lines(names: Seq<String>) -> Seq<Seq<char>> {
    Seq::new(
        names.len(),
        |i: int|
            "  "@ + crate::text::right_text(crate::text::decimal_text(i as nat), 5) + "  "@
                + names[i]@ + "\n"@,
    )
}

/// One index-to-name table, where it is not empty.
pub open spec fn name_table_spelling(title: Seq<char>, names: Seq<String>) -> Seq<char> {
    if names.len() == 0 {
        Seq::empty()
    } else {
        title + "\n"@ + crate::text::run_on(name_lines(names))
    }
}

/// What one leaf of a slot holds: by its type's name, or by its shape
/// where it has none.
pub open spec fn leaf_spelling(form: LeafForm, types: Seq<ShapeNode>) -> Seq<char> {
    match form {
        LeafForm::Bytes => "holding its own bytes"@,
        LeafForm::Value(place) => if place.0 >= types.len() {
            "holding shape "@ + crate::text::decimal_text(place.0 as nat)
        } else {
            let node = types[place.0 as int];
            match node.name {
                Some(name) => "holding "@ + name@,
                None => match node.shape {
                    TypeShape::Tuple(parts) => if parts@.len() == 0 {
                        "holding nothing"@
                    } else {
                        "holding "@ + crate::explain::literal::shape_spelling(node.shape)
                    },
                    _ => "holding "@ + crate::explain::literal::shape_spelling(node.shape),
                },
            }
        },
    }
}

/// The line of each type that has a name.
pub open spec fn type_lines(types: Seq<ShapeNode>) -> Seq<Seq<char>> {
    Seq::new(
        types.len(),
        |i: int|
            match types[i].name {
                Some(name) => "  "@ + name@ + " = "@ + crate::explain::literal::shape_spelling(
                    types[i].shape,
                ) + "\n"@,
                None => Seq::empty(),
            },
    )
}

/// Whether any of a run of types has a name.
pub open spec fn any_named(types: Seq<ShapeNode>) -> bool {
    exists|i: int| 0 <= i < types.len() && (#[trigger] types[i]).name is Some
}

/// The line of each resource of a census.
pub open spec fn resource_lines(census: Seq<Row>) -> Seq<Seq<char>> {
    Seq::new(
        census.len(),
        |i: int|
            "  "@ + census[i].kind + census[i].material + (if census[i].granting.len() == 0 {
                Seq::empty()
            } else {
                " — "@ + census[i].granting
            }) + "\n"@,
    )
}

impl Lexicon {
    /// The line of each declared slot.
    pub open spec fn state_lines(self, state: Seq<(SlotId, SlotShape)>) -> Seq<Seq<char>> {
        Seq::new(
            state.len(),
            |i: int|
                "  "@ + crate::text::right_text(
                    crate::text::decimal_text(state[i].0.0 as nat),
                    5,
                ) + "  "@ + state[i].1.name@ + " — "@ + (
                crate::explain::literal::slot_kind_spelling(state[i].1.kind) + ", "@
                    + leaf_spelling(state[i].1.element, self.metadata.types.held()) + (
                match state[i].1.denomination {
                    Some(resource) => ", denominated in "@ + self.expr(resource, SELECT as int),
                    None => Seq::empty(),
                }) + "\n"@),
        )
    }

    /// The package's own tables, each omitted where it is empty.
    pub open spec fn tables(self) -> Seq<char> {
        let state = self.metadata.state.listed();
        let types = self.metadata.types.held();
        (if state.len() == 0 {
            Seq::empty()
        } else {
            "state\n"@ + crate::text::run_on(self.state_lines(state))
        }) + name_table_spelling("config"@, self.metadata.config@) + (if self.census.len() == 0 {
            Seq::empty()
        } else {
            "resources\n"@ + crate::text::run_on(resource_lines(self.census))
        }) + name_table_spelling("events"@, self.metadata.events@) + name_table_spelling(
            "errors"@,
            self.metadata.errors@,
        ) + (if any_named(types) {
            "types\n"@ + crate::text::run_on(type_lines(types))
        } else {
            Seq::empty()
        })
    }

    /// The line of each parameter whose resource a method states.
    pub open spec fn take_lines(self, denominations: Seq<Option<Expr>>) -> Seq<Seq<char>> {
        Seq::new(
            denominations.len(),
            |i: int|
                match denominations[i] {
                    Some(resource) => "  takes    arg"@ + crate::text::decimal_text(i as nat)
                        + " carrying "@ + self.expr(resource, ATOM as int) + "\n"@,
                    None => Seq::empty(),
                },
        )
    }

    /// The line of each resource a method issues, its grants left to the
    /// resources table where that separates it.
    pub open spec fn issue_lines(self, issues: Seq<Issuance>) -> Seq<Seq<char>> {
        Seq::new(
            issues.len(),
            |i: int|
                "  "@ + direction_spelling(issues[i].direction)
                    + crate::explain::literal::bytes_spelling(issues[i].mark@) + " "@
                    + crate::explain::literal::kind_spelling(issues[i].kind) + (if self.is_tabled(
                    crate::explain::literal::kind_spelling(issues[i].kind),
                    "["@ + crate::explain::literal::bytes_spelling(issues[i].mark@) + "]"@,
                ) {
                    Seq::empty()
                } else {
                    self.grants_of(issues[i].grants)
                }) + "\n"@,
        )
    }

    /// The line of each parameter a method destroys.
    pub open spec fn destroy_lines(self, destroys: Seq<u32>) -> Seq<Seq<char>> {
        Seq::new(
            destroys.len(),
            |i: int|
                "  destroys arg"@ + crate::text::decimal_text(destroys[i] as nat)
                    + ", if its own rule admits it\n"@,
        )
    }

    /// What an edge a method yields carries. A constructed bucket sheds
    /// its wrapper.
    pub open spec fn carried(self, output: Expr) -> Seq<char> {
        match output {
            Expr::NfBucket { resource, ids } => self.expr(*resource, ATOM as int) + " × "@
                + self.expr(*ids, ATOM as int),
            _ => self.expr(output, ATOM as int),
        }
    }

    /// The line of each edge a method yields.
    pub open spec fn yield_lines(self, outputs: Seq<Expr>) -> Seq<Seq<char>> {
        Seq::new(
            outputs.len(),
            |i: int|
                "  yields   edge "@ + crate::text::decimal_text(i as nat) + " carrying "@
                    + self.carried(outputs[i]) + "\n"@,
        )
    }

    /// One method: what it takes, what it declares, and what it hands
    /// back.
    pub open spec fn method(self, name: Seq<char>, signature: MethodSignature) -> Seq<char> {
        name + "("@ + crate::text::joined_text(param_spellings(signature.params@), ", "@)
            + ") — "@ + crate::explain::literal::totality_spelling(signature.totality) + (
        if signature.answers {
            ", answers"@
        } else {
            Seq::empty()
        }) + "\n"@ + crate::text::run_on(self.take_lines(signature.denominations@))
            + crate::text::run_on(self.issue_lines(signature.issues@)) + crate::text::run_on(
            self.destroy_lines(signature.destroys@),
        ) + (if signature.effects@.len() == 0 {
            Seq::empty()
        } else {
            "  declares\n"@ + crate::text::run_on(
                self.clauses(signature.effects@, 0, "    "@),
            )
        }) + crate::text::run_on(self.yield_lines(signature.outputs@)) + (
        if signature.abi@.len() == 0 {
            Seq::empty()
        } else {
            "  exports  "@ + crate::text::joined_text(
                self.exports(signature.abi@, signature.effects@, Seq::empty()),
                ", "@,
            ) + "\n"@
        })
    }

    /// Every method, each after an empty line.
    pub open spec fn methods(self) -> Seq<Seq<char>> {
        let methods = self.metadata.methods.listed();
        Seq::new(methods.len(), |i: int| "\n"@ + self.method(methods[i].0@, methods[i].1))
    }
}

/// One index-to-name table.
fn name_table(title: &str, names: &Vec<String>) -> (r: String)
    ensures
        r@ == name_table_spelling(title@, names@),
{
    if names.len() == 0 {
        return String::new();
    }
    let mut lines: Vec<String> = Vec::new();
    let mut i: usize = 0;
    while i < names.len()
        invariant
            i <= names.len(),
            lines.len() == i,
            forall|j: int| 0 <= j < i ==> (#[trigger] lines@[j])@ == name_lines(names@)[j],
        decreases names.len() - i,
    {
        let listed = to_the_right(decimal(i as u128).as_str(), 5);
        lines.push(cat5("  ", listed.as_str(), "  ", names[i].as_str(), "\n"));
        i = i + 1;
    }
    assert(crate::text::texts(lines@) =~= name_lines(names@));
    cat3(title, "\n", concat(&lines).as_str())
}

/// What one leaf of a slot holds.
fn leaf_form(form: LeafForm, types: &ShapeTable) -> (r: String)
    ensures
        r@ == leaf_spelling(form, types.held()),
{
    match form {
        LeafForm::Bytes => "holding its own bytes".to_owned(),
        LeafForm::Value(place) => match types.get(place) {
            None => cat2("holding shape ", decimal(place.0 as u128).as_str()),
            Some(node) => match &node.name {
                Some(name) => cat2("holding ", name.as_str()),
                None => match &node.shape {
                    // An instance family's entry: the id is the entry's
                    // own order key, so the leaf has nothing left to hold.
                    TypeShape::Tuple(parts) => {
                        if parts.len() == 0 {
                            "holding nothing".to_owned()
                        } else {
                            cat2("holding ", shape_of(&node.shape).as_str())
                        }
                    },
                    _ => cat2("holding ", shape_of(&node.shape).as_str()),
                },
            },
        },
    }
}

/// The types that have names, under a title where there are any.
fn type_table(types: &ShapeTable) -> (r: String)
    ensures
        r@ == (if any_named(types.held()) {
            "types\n"@ + crate::text::run_on(type_lines(types.held()))
        } else {
            Seq::empty()
        }),
{
    let ghost nodes = types.held();
    let mut lines: Vec<String> = Vec::new();
    let mut named = false;
    let mut i: usize = 0;
    while i < types.len()
        invariant
            i <= nodes.len(),
            nodes == types.held(),
            lines.len() == i,
            named == (exists|j: int| 0 <= j < i && (#[trigger] nodes[j]).name is Some),
            forall|j: int| 0 <= j < i ==> (#[trigger] lines@[j])@ == type_lines(nodes)[j],
        decreases nodes.len() - i,
    {
        let node = types.node(i);
        match &node.name {
            Some(name) => {
                named = true;
                assert(nodes[i as int].name is Some);
                lines.push(
                    cat5("  ", name.as_str(), " = ", shape_of(&node.shape).as_str(), "\n"),
                );
            },
            None => {
                lines.push(String::new());
                assert(lines@[i as int]@ =~= Seq::empty());
            },
        }
        i = i + 1;
    }
    assert(crate::text::texts(lines@) =~= type_lines(nodes));
    if named {
        cat2("types\n", concat(&lines).as_str())
    } else {
        String::new()
    }
}

impl<'a> Names<'a> {
    /// The declared slots, under a title where there are any.
    fn state_table(&self) -> (r: String)
        ensures
            r@ == (if self.metadata.state.listed().len() == 0 {
                Seq::empty()
            } else {
                "state\n"@ + crate::text::run_on(
                    self.lexicon().state_lines(self.metadata.state.listed()),
                )
            }),
    {
        let ghost state = self.metadata.state.listed();
        let ghost all = self.lexicon().state_lines(state);
        if self.metadata.state.is_empty() {
            return String::new();
        }
        let mut lines: Vec<String> = Vec::new();
        let mut i: usize = 0;
        while i < self.metadata.state.len()
            invariant
                i <= state.len(),
                state == self.metadata.state.listed(),
                all == self.lexicon().state_lines(state),
                lines.len() == i,
                forall|j: int| 0 <= j < i ==> (#[trigger] lines@[j])@ == all[j],
            decreases state.len() - i,
        {
            let slot = self.metadata.state.key(i);
            let shape = self.metadata.state.value(i);
            let holding = match &shape.denomination {
                Some(resource) => cat2(", denominated in ", self.expr(resource, SELECT).as_str()),
                None => String::new(),
            };
            let described = cat5(
                slot_kind(shape.kind),
                ", ",
                leaf_form(shape.element, &self.metadata.types).as_str(),
                holding.as_str(),
                "\n",
            );
            let listed = to_the_right(decimal(slot.0 as u128).as_str(), 5);
            lines.push(
                cat6(
                    "  ",
                    listed.as_str(),
                    "  ",
                    shape.name.as_str(),
                    " — ",
                    described.as_str(),
                ),
            );
            i = i + 1;
        }
        assert(crate::text::texts(lines@) =~= all);
        cat2("state\n", concat(&lines).as_str())
    }

    /// The census, spelled once: every mention whose kind and material
    /// name exactly one line here leaves its grants to it.
    fn resource_table(&self) -> (r: String)
        ensures
            r@ == (if self.lexicon().census.len() == 0 {
                Seq::empty()
            } else {
                "resources\n"@ + crate::text::run_on(resource_lines(self.lexicon().census))
            }),
    {
        let ghost census = self.lexicon().census;
        if self.issued.len() == 0 {
            return String::new();
        }
        let mut lines: Vec<String> = Vec::new();
        let mut i: usize = 0;
        while i < self.issued.len()
            invariant
                i <= self.issued.len(),
                census == self.lexicon().census,
                lines.len() == i,
                forall|j: int| 0 <= j < i ==> (#[trigger] lines@[j])@ == resource_lines(census)[j],
            decreases self.issued.len() - i,
        {
            let derivation = &self.issued[i];
            assert(census[i as int] == derivation.row());
            let granted = if derivation.granting.as_str().unicode_len() == 0 {
                String::new()
            } else {
                cat2(" — ", derivation.granting.as_str())
            };
            lines.push(
                cat5(
                    "  ",
                    derivation.kind.as_str(),
                    derivation.material.as_str(),
                    granted.as_str(),
                    "\n",
                ),
            );
            i = i + 1;
        }
        assert(crate::text::texts(lines@) =~= resource_lines(census));
        cat2("resources\n", concat(&lines).as_str())
    }

    /// The package's own tables, each omitted where it is empty.
    pub fn tables(&self) -> (r: String)
        ensures
            r@ == self.lexicon().tables(),
    {
        cat6(
            self.state_table().as_str(),
            name_table("config", &self.metadata.config).as_str(),
            self.resource_table().as_str(),
            name_table("events", &self.metadata.events).as_str(),
            name_table("errors", &self.metadata.errors).as_str(),
            type_table(&self.metadata.types).as_str(),
        )
    }

    /// The lines of the parameters whose resource a method states.
    fn takes(&self, denominations: &Vec<Option<Expr>>) -> (r: String)
        ensures
            r@ == crate::text::run_on(self.lexicon().take_lines(denominations@)),
    {
        let ghost all = self.lexicon().take_lines(denominations@);
        let mut lines: Vec<String> = Vec::new();
        let mut i: usize = 0;
        while i < denominations.len()
            invariant
                i <= denominations.len(),
                all == self.lexicon().take_lines(denominations@),
                lines.len() == i,
                forall|j: int| 0 <= j < i ==> (#[trigger] lines@[j])@ == all[j],
            decreases denominations.len() - i,
        {
            match &denominations[i] {
                Some(resource) => {
                    lines.push(
                        cat5(
                            "  takes    arg",
                            decimal(i as u128).as_str(),
                            " carrying ",
                            self.expr(resource, ATOM).as_str(),
                            "\n",
                        ),
                    );
                },
                None => {
                    lines.push(String::new());
                    assert(lines@[i as int]@ =~= Seq::empty());
                },
            }
            i = i + 1;
        }
        assert(crate::text::texts(lines@) =~= all);
        concat(&lines)
    }

    /// The lines of the resources a method issues.
    ///
    /// The label is the direction: what a frame may do with its grant is
    /// which of the resource's authority entries it answers to.
    fn issuances(&self, issues: &Vec<Issuance>) -> (r: String)
        ensures
            r@ == crate::text::run_on(self.lexicon().issue_lines(issues@)),
    {
        let ghost all = self.lexicon().issue_lines(issues@);
        let mut lines: Vec<String> = Vec::new();
        let mut i: usize = 0;
        while i < issues.len()
            invariant
                i <= issues.len(),
                all == self.lexicon().issue_lines(issues@),
                lines.len() == i,
                forall|j: int| 0 <= j < i ==> (#[trigger] lines@[j])@ == all[j],
            decreases issues.len() - i,
        {
            let issuance = &issues[i];
            let mark = bytes(issuance.mark.as_slice());
            let material = cat3("[", mark.as_str(), "]");
            let granted = if self.tabled(issuance.kind, material.as_str()) {
                String::new()
            } else {
                self.grants_of(&issuance.grants)
            };
            let label = match issuance.direction {
                Issued::Minted => "mints    ",
                Issued::Burned => "burns    ",
                Issued::Either => "issues   ",
            };
            let named = cat5("  ", label, mark.as_str(), " ", resource_kind(issuance.kind));
            lines.push(cat3(named.as_str(), granted.as_str(), "\n"));
            i = i + 1;
        }
        assert(crate::text::texts(lines@) =~= all);
        concat(&lines)
    }

    /// The lines of the parameters a method destroys: the other way
    /// supply leaves, named by parameter because the resource is the
    /// edge's rather than one this instance derives.
    fn destroyed(&self, destroys: &Vec<u32>) -> (r: String)
        ensures
            r@ == crate::text::run_on(self.lexicon().destroy_lines(destroys@)),
    {
        let ghost all = self.lexicon().destroy_lines(destroys@);
        let mut lines: Vec<String> = Vec::new();
        let mut i: usize = 0;
        while i < destroys.len()
            invariant
                i <= destroys.len(),
                all == self.lexicon().destroy_lines(destroys@),
                lines.len() == i,
                forall|j: int| 0 <= j < i ==> (#[trigger] lines@[j])@ == all[j],
            decreases destroys.len() - i,
        {
            lines.push(
                cat3(
                    "  destroys arg",
                    decimal(destroys[i] as u128).as_str(),
                    ", if its own rule admits it\n",
                ),
            );
            i = i + 1;
        }
        assert(crate::text::texts(lines@) =~= all);
        concat(&lines)
    }

    /// The lines of the edges a method yields.
    fn yields(&self, outputs: &Vec<Expr>) -> (r: String)
        ensures
            r@ == crate::text::run_on(self.lexicon().yield_lines(outputs@)),
    {
        let ghost all = self.lexicon().yield_lines(outputs@);
        let mut lines: Vec<String> = Vec::new();
        let mut i: usize = 0;
        while i < outputs.len()
            invariant
                i <= outputs.len(),
                all == self.lexicon().yield_lines(outputs@),
                lines.len() == i,
                forall|j: int| 0 <= j < i ==> (#[trigger] lines@[j])@ == all[j],
            decreases outputs.len() - i,
        {
            // What an edge carries, on the same word the taking lines use.
            // The line already says it is an edge.
            let carried = match &outputs[i] {
                Expr::NfBucket { resource, ids } => cat3(
                    self.expr(resource, ATOM).as_str(),
                    " × ",
                    self.expr(ids, ATOM).as_str(),
                ),
                _ => self.expr(&outputs[i], ATOM),
            };
            lines.push(
                cat5(
                    "  yields   edge ",
                    decimal(i as u128).as_str(),
                    " carrying ",
                    carried.as_str(),
                    "\n",
                ),
            );
            i = i + 1;
        }
        assert(crate::text::texts(lines@) =~= all);
        concat(&lines)
    }

    /// What a method's parameters are, separated by commas.
    fn parameters(&self, params: &Vec<ParamType>) -> (r: String)
        ensures
            r@ == crate::text::joined_text(param_spellings(params@), ", "@),
    {
        let mut kinds: Vec<String> = Vec::new();
        let mut i: usize = 0;
        while i < params.len()
            invariant
                i <= params.len(),
                kinds.len() == i,
                forall|j: int| 0 <= j < i ==> (#[trigger] kinds@[j])@ == param_spelling(params@[j]),
            decreases params.len() - i,
        {
            let kind = match params[i] {
                ParamType::BytesExact(width) => cat3(
                    "[u8; ",
                    decimal(width as u128).as_str(),
                    "]",
                ),
                _ => params[i].name().to_owned(),
            };
            kinds.push(kind);
            i = i + 1;
        }
        assert(crate::text::texts(kinds@) =~= param_spellings(params@));
        join(&kinds, ", ")
    }

    /// One method: what it takes, what it declares, and what it hands
    /// back.
    pub fn method(&self, name: &str, signature: &MethodSignature) -> (r: String)
        ensures
            r@ == self.lexicon().method(name@, *signature),
    {
        let mut out = cat5(
            name,
            "(",
            self.parameters(&signature.params).as_str(),
            ") — ",
            returns_text(signature.totality),
        );
        let answers = if signature.answers {
            ", answers".to_owned()
        } else {
            String::new()
        };
        out.append(answers.as_str());
        out.append("\n");
        out.append(self.takes(&signature.denominations).as_str());
        out.append(self.issuances(&signature.issues).as_str());
        out.append(self.destroyed(&signature.destroys).as_str());
        let declared = if signature.effects.len() == 0 {
            String::new()
        } else {
            cat2("  declares\n", self.clauses(&signature.effects, 0, "    ").as_str())
        };
        out.append(declared.as_str());
        out.append(self.yields(&signature.outputs).as_str());
        let exported = if signature.abi.len() == 0 {
            String::new()
        } else {
            let bound = self.abi_params(&signature.abi, &signature.effects);
            cat3("  exports  ", join(&bound, ", ").as_str(), "\n")
        };
        out.append(exported.as_str());
        out
    }
}

/// The whole package: its tables, then every method it declares.
pub fn explain(metadata: &PackageMetadata) -> (r: String)
    ensures
        ({
            let lexicon = crate::explain::census::lexicon_of(*metadata);
            r@ == lexicon.tables() + crate::text::run_on(lexicon.methods())
        }),
{
    let names = Names::new(metadata);
    let ghost methods = metadata.methods.listed();
    let ghost all = names.lexicon().methods();
    let mut listed: Vec<String> = Vec::new();
    let mut i: usize = 0;
    while i < metadata.methods.len()
        invariant
            i <= methods.len(),
            methods == metadata.methods.listed(),
            all == names.lexicon().methods(),
            names.lexicon().metadata == *metadata,
            listed.len() == i,
            forall|j: int| 0 <= j < i ==> (#[trigger] listed@[j])@ == all[j],
        decreases methods.len() - i,
    {
        let name = metadata.methods.key(i);
        let signature = metadata.methods.value(i);
        listed.push(cat2("\n", names.method(name.as_str(), signature).as_str()));
        i = i + 1;
    }
    assert(crate::text::texts(listed@) =~= all);
    cat2(names.tables().as_str(), concat(&listed).as_str())
}

/// One method, with the package's tables resolving its names.
///
/// Nothing where the package declares no method under that name.
pub fn explain_method(metadata: &PackageMetadata, method: &str) -> (r: Option<String>)
    ensures
        match (r, metadata.methods.under(crate::table::text_ordinal(method@))) {
            (Some(text), Some(signature)) => text@ == crate::explain::census::lexicon_of(
                *metadata,
            ).method(method@, signature),
            (None, None) => true,
            _ => false,
        },
{
    let named = method.to_owned();
    match metadata.methods.get(&named) {
        Some(signature) => Some(Names::new(metadata).method(method, signature)),
        None => None,
    }
}

} // verus!
