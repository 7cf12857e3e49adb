//! What a resource's own record says about moving it, as text.
use vstd::prelude::*;

use crate::address::{Address, AddressClass, ResourceAddr};
use crate::explain::literal::{address_text, claim_text, heard, instance_text, resource_kind};
use crate::record::{Demand, Holding, ResourceMeta, SealedLeaf, StoredRule};
use crate::resource::GrantedBehaviour;
use crate::rule::Rule;
use crate::text::{cat2, cat3, cat4, cat5, concat, decimal, join, to_the_left};

verus! {

/// How much of a badge a holder must hold, spelled.
pub open spec fn holding_spelling(holding: Holding) -> Seq<char> {
    match holding {
        Holding::Balance => "a balance"@,
        Holding::AnyInstance => "any instance"@,
        Holding::Instance(id) => "instance "@ + crate::text::decimal_text(id as nat),
    }
}

/// One sealed leaf, saying which of the two questions it is: an approval,
/// or a holding. The issuer is called that.
pub open spec fn sealed_leaf_spelling(leaf: SealedLeaf, issuer: Option<Address>) -> Seq<char> {
    match leaf {
        SealedLeaf::Claim(claim) => if issuer == Some(claim.subject) {
            "approval on the issuer"@ + crate::explain::literal::instance_spelling(claim)
        } else {
            "approval on "@ + crate::explain::literal::claim_spelling(claim)
        },
        SealedLeaf::Held { badge, holding } => "the moving party holds "@ + holding_spelling(
            holding,
        ) + " of "@ + crate::explain::literal::address_spelling(badge.as_address()),
    }
}

/// One sealed rule, spelled.
pub open spec fn sealed_spelling(rule: StoredRule, issuer: Option<Address>) -> Seq<char>
    decreases rule,
{
    match rule {
        Rule::Require(leaf) => sealed_leaf_spelling(leaf, issuer),
        Rule::CountOf { count, rules } => crate::text::decimal_text(count as nat) + " of ("@
            + crate::text::joined_text(sealed_spellings(rules@, issuer), ", "@) + ")"@,
    }
}

/// Sealed rules, each spelled.
pub open spec fn sealed_spellings(rules: Seq<StoredRule>, issuer: Option<Address>) -> Seq<
    Seq<char>,
>
    decreases rules,
{
    Seq::new(
        rules.len(),
        |i: int|
            if 0 <= i < rules.len() {
                sealed_spelling(rules[i], issuer)
            } else {
                Seq::empty()
            },
    )
}

/// One sealed rule, each leaf saying which of the two questions it is.
///
/// `issuer` is the record's own namespace, so an entry naming it reads as
/// the issuer rather than as an address a reader would have to compare by
/// eye. It still reads as an approval: a movement entry naming the issuer
/// asks whether this transaction carried a claim on them.
pub fn sealed_rule(rule: &StoredRule, issuer: Option<Address>) -> (r: String)
    ensures
        r@ == sealed_spelling(*rule, issuer),
    decreases rule,
{
    match rule {
        Rule::Require(leaf) => match leaf {
            SealedLeaf::Claim(claim) => {
                let on_the_issuer = match issuer {
                    Some(address) => address == claim.subject,
                    None => false,
                };
                if on_the_issuer {
                    cat2("approval on the issuer", instance_text(claim).as_str())
                } else {
                    cat2("approval on ", claim_text(claim).as_str())
                }
            },
            SealedLeaf::Held { badge, holding } => {
                let held = match holding {
                    Holding::Balance => "a balance".to_owned(),
                    Holding::AnyInstance => "any instance".to_owned(),
                    Holding::Instance(id) => cat2("instance ", decimal(*id as u128).as_str()),
                };
                cat4(
                    "the moving party holds ",
                    held.as_str(),
                    " of ",
                    address_text(badge.address()).as_str(),
                )
            },
        },
        Rule::CountOf { count, rules } => {
            let mut branches: Vec<String> = Vec::new();
            let mut i: usize = 0;
            while i < rules.len()
                invariant
                    i <= rules.len(),
                    branches.len() == i,
                    *rule matches Rule::CountOf { rules: held, .. } && held == *rules,
                    forall|j: int|
                        0 <= j < i ==> (#[trigger] branches@[j])@ == sealed_spelling(
                            rules@[j],
                            issuer,
                        ),
                decreases rules.len() - i,
            {
                branches.push(sealed_rule(&rules[i], issuer));
                i = i + 1;
            }
            assert(crate::text::texts(branches@) =~= sealed_spellings(rules@, issuer));
            cat4(decimal(*count as u128).as_str(), " of (", join(&branches, ", ").as_str(), ")")
        },
    }
}

/// What an entry demands, spelled. The constants answer without asking
/// anything, so there is no stage for a verdict to land at.
pub open spec fn demand_spelling(demand: Demand, issuer: Address) -> Seq<char> {
    match demand {
        Demand::Unreadable => "unreadable"@,
        Demand::Nothing => "the issuer's own code, which proves nothing to itself"@,
        Demand::Asked(rule) => if rule.is_always() {
            "anyone"@
        } else if rule.is_never() {
            "nobody, ever"@
        } else {
            sealed_spelling(rule, Some(issuer)) + " — heard "@
                + crate::explain::literal::heard_spelling(rule.stage())
        },
    }
}

/// What an entry demands.
fn demand_text(demand: &Demand, issuer: Address) -> (r: String)
    ensures
        r@ == demand_spelling(*demand, issuer),
{
    match demand {
        Demand::Unreadable => "unreadable".to_owned(),
        Demand::Nothing => "the issuer's own code, which proves nothing to itself".to_owned(),
        Demand::Asked(rule) => {
            if rule.says_always() {
                "anyone".to_owned()
            } else if rule.says_never() {
                "nobody, ever".to_owned()
            } else {
                cat3(
                    sealed_rule(rule, Some(issuer)).as_str(),
                    " — heard ",
                    heard(rule.judged()),
                )
            }
        },
    }
}

/// Every behaviour, in the order entries are listed in.
pub open spec fn all_behaviours() -> Seq<GrantedBehaviour> {
    seq![
        GrantedBehaviour::Mint,
        GrantedBehaviour::Burn,
        GrantedBehaviour::Withdraw,
        GrantedBehaviour::Deposit,
        GrantedBehaviour::Freeze,
        GrantedBehaviour::Recall,
    ]
}

/// The line of each behaviour a record has an entry for.
pub open spec fn entry_lines(record: ResourceMeta) -> Seq<Seq<char>> {
    Seq::new(
        6,
        |i: int|
            match crate::record::first_demand(record.demands@, all_behaviours()[i]) {
                Some(demand) => "  "@ + crate::text::left_text(all_behaviours()[i].label(), 9)
                    + "  "@ + demand_spelling(demand, record.namespace) + "\n"@,
                None => Seq::empty(),
            },
    )
}

/// What a resource's own record says about moving it, spelled.
pub open spec fn record_spelling(record: ResourceMeta, address: ResourceAddr) -> Seq<char> {
    let head = "resource "@ + crate::explain::literal::address_spelling(address.as_address())
        + "  "@ + crate::explain::literal::kind_spelling(record.kind) + "\n"@;
    let issued = "  issued by  "@ + crate::explain::literal::address_spelling(record.namespace)
        + "\n"@;
    let class = "  class      "@ + (if address.restricted {
        "restricted — an entry here can stop a movement of it, so a transfer presents this record"@
    } else {
        "plain — nothing here can stop a movement, so a transfer pays for none of it"@
    }) + "\n"@;
    head + issued + class + crate::text::run_on(entry_lines(record))
}

/// What a resource's own record says about moving it, for whoever is
/// deciding whether to accept it. `address` is what the record derives.
///
/// The tier where the questions are settled. A package's declaration names
/// a configuration field and cannot say what that field will name; a
/// record has the instance's answer folded into it, so every entry here
/// reads as one of exactly two questions: a holding, a standing fact about
/// the party whose cell moves, or an approval, which is about this
/// transaction and nothing about that party.
///
/// Each entry also says when its verdict lands, which is what a holder
/// needs and what the sealed leaves already decide. The addresses render
/// as themselves: there is no package here to name anything through.
pub fn explain_resource(record: &ResourceMeta, address: ResourceAddr) -> (r: String)
    ensures
        r@ == record_spelling(*record, address),
{
    let head = cat5(
        "resource ",
        address_text(address.address()).as_str(),
        "  ",
        resource_kind(record.kind),
        "\n",
    );
    let issued = cat3("  issued by  ", address_text(record.namespace).as_str(), "\n");
    let plain = match address.address().class() {
        AddressClass::Restricted =>
            "restricted — an entry here can stop a movement of it, so a transfer presents this record",
        _ => "plain — nothing here can stop a movement, so a transfer pays for none of it",
    };
    let class = cat3("  class      ", plain, "\n");
    let behaviours: [GrantedBehaviour; 6] = [
        GrantedBehaviour::Mint,
        GrantedBehaviour::Burn,
        GrantedBehaviour::Withdraw,
        GrantedBehaviour::Deposit,
        GrantedBehaviour::Freeze,
        GrantedBehaviour::Recall,
    ];
    assert(behaviours@ =~= all_behaviours());
    let mut lines: Vec<String> = Vec::new();
    let mut i: usize = 0;
    while i < 6
        invariant
            i <= 6,
            behaviours@ == all_behaviours(),
            lines.len() == i,
            forall|j: int| 0 <= j < i ==> (#[trigger] lines@[j])@ == entry_lines(*record)[j],
        decreases 6 - i,
    {
        let behaviour = behaviours[i];
        assert(behaviour == all_behaviours()[i as int]);
        match record.demanded(behaviour) {
            Some(demand) => {
                let asks = demand_text(demand, record.namespace);
                lines.push(
                    cat5(
                        "  ",
                        to_the_left(behaviour.word(), 9).as_str(),
                        "  ",
                        asks.as_str(),
                        "\n",
                    ),
                );
            },
            None => {
                lines.push(String::new());
                assert(lines@[i as int]@ =~= Seq::empty());
            },
        }
        i = i + 1;
    }
    assert(crate::text::texts(lines@) =~= entry_lines(*record));
    cat4(head.as_str(), issued.as_str(), class.as_str(), concat(&lines).as_str())
}

} // verus!
