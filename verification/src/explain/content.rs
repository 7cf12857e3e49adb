//! What a rendering shows: the texts that stand in it, and what each says
//! of the value it renders.
use vstd::prelude::*;

use crate::address::{Address, AddressClass, ResourceAddr};
use crate::record::{Demand, ResourceMeta, SealedLeaf, StoredRule};
use crate::resource::{GrantedBehaviour, ResourceKind};
use crate::rule::{Leaf, Rule};

verus! {

/// Whether a text stands in another at a place.
pub open spec fn stands_at(text: Seq<char>, part: Seq<char>, at: int) -> bool {
    &&& 0 <= at
    &&& at + part.len() <= text.len()
    &&& text.subrange(at, at + part.len()) == part
}

/// Whether a text stands in another.
pub open spec fn shows(text: Seq<char>, part: Seq<char>) -> bool {
    exists|at: int| stands_at(text, part, at)
}

/// What stands between two texts stands in all three put together.
pub proof fn lemma_shows(before: Seq<char>, part: Seq<char>, after: Seq<char>)
    ensures
        shows(before + part + after, part),
{
    let whole = before + part + after;
    let at = before.len() as int;
    assert(whole.subrange(at, at + part.len()) =~= part);
    assert(stands_at(whole, part, at));
}

/// What stands in a part stands in the whole.
pub proof fn lemma_shows_within(text: Seq<char>, part: Seq<char>, inner: Seq<char>)
    requires
        shows(text, part),
        shows(part, inner),
    ensures
        shows(text, inner),
{
    let at = choose|at: int| stands_at(text, part, at);
    let within = choose|within: int| stands_at(part, inner, within);
    assert(text.subrange(at + within, at + within + inner.len()) =~= part.subrange(
        within,
        within + inner.len(),
    ));
    assert(stands_at(text, inner, at + within));
}

/// Each of a run of texts stands in the run put together.
pub proof fn lemma_run_shows(parts: Seq<Seq<char>>, i: int)
    requires
        0 <= i < parts.len(),
    ensures
        shows(crate::text::run_on(parts), parts[i]),
    decreases parts.len(),
{
    let before = crate::text::run_on(parts.drop_last());
    if i < parts.len() - 1 {
        lemma_run_shows(parts.drop_last(), i);
        assert(parts.drop_last()[i] == parts[i]);
        lemma_shows(Seq::empty(), before, parts.last());
        assert(Seq::<char>::empty() + before + parts.last() =~= crate::text::run_on(parts));
        lemma_shows_within(crate::text::run_on(parts), before, parts[i]);
    } else {
        lemma_shows(before, parts.last(), Seq::empty());
        assert(before + parts.last() + Seq::<char>::empty() =~= crate::text::run_on(parts));
    }
}

/// Each of a list of texts stands in the list.
pub proof fn lemma_list_shows(parts: Seq<Seq<char>>, between: Seq<char>, i: int)
    requires
        0 <= i < parts.len(),
    ensures
        shows(crate::text::joined_text(parts, between), parts[i]),
    decreases parts.len(),
{
    let whole = crate::text::joined_text(parts, between);
    if parts.len() == 1 {
        lemma_shows(Seq::empty(), parts[0], Seq::empty());
        assert(Seq::<char>::empty() + parts[0] + Seq::<char>::empty() =~= whole);
    } else if i < parts.len() - 1 {
        let before = crate::text::joined_text(parts.drop_last(), between);
        lemma_list_shows(parts.drop_last(), between, i);
        assert(parts.drop_last()[i] == parts[i]);
        lemma_shows(Seq::empty(), before, between + parts.last());
        assert(Seq::<char>::empty() + before + (between + parts.last()) =~= whole);
        lemma_shows_within(whole, before, parts[i]);
    } else {
        let before = crate::text::joined_text(parts.drop_last(), between) + between;
        lemma_shows(before, parts.last(), Seq::empty());
        assert(before + parts.last() + Seq::<char>::empty() =~= whole);
    }
}

/// The class line says restricted exactly where the record's address is of
/// the restricted class, and plain otherwise: between what tells the
/// address and what lists the entries, one record rendered at a restricted
/// address and at a plain one differs on that line, and reads alike after
/// it.
#[verifier::rlimit(60)]
pub proof fn law_a_record_tells_its_class(
    record: ResourceMeta,
    restricted: ResourceAddr,
    plain: ResourceAddr,
)
    requires
        restricted.as_address().class == AddressClass::Restricted,
        plain.as_address().class == AddressClass::Resource,
    ensures
        shows(
            crate::explain::record::record_spelling(record, restricted),
            "\n  class      restricted — an entry here can stop a movement of it, so a transfer presents this record\n"@,
        ),
        shows(
            crate::explain::record::record_spelling(record, plain),
            "\n  class      plain — nothing here can stop a movement, so a transfer pays for none of it\n"@,
        ),
        exists|one: Seq<char>, other: Seq<char>, entries: Seq<char>|
            #![trigger one + "  class      restricted — an entry here can stop a movement of it, so a transfer presents this record\n"@ + entries, other + "  class      plain — nothing here can stop a movement, so a transfer pays for none of it\n"@ + entries]
            crate::explain::record::record_spelling(record, restricted) == one
                + "  class      restricted — an entry here can stop a movement of it, so a transfer presents this record\n"@
                + entries && crate::explain::record::record_spelling(record, plain) == other
                + "  class      plain — nothing here can stop a movement, so a transfer pays for none of it\n"@
                + entries && one.len() > 0 && one.last() == '\n' && other.len() > 0
                && other.last() == '\n',
{
    let mark = "restricted — an entry here can stop a movement of it, so a transfer presents this record"@;
    let bare = "plain — nothing here can stop a movement, so a transfer pays for none of it"@;
    let marked = "  class      restricted — an entry here can stop a movement of it, so a transfer presents this record\n"@;
    let bared = "  class      plain — nothing here can stop a movement, so a transfer pays for none of it\n"@;
    let entries = crate::text::run_on(crate::explain::record::entry_lines(record));
    reveal_strlit("\n");
    reveal_strlit("  class      ");
    reveal_strlit("restricted — an entry here can stop a movement of it, so a transfer presents this record");
    reveal_strlit("plain — nothing here can stop a movement, so a transfer pays for none of it");
    reveal_strlit("  class      restricted — an entry here can stop a movement of it, so a transfer presents this record\n");
    reveal_strlit("  class      plain — nothing here can stop a movement, so a transfer pays for none of it\n");
    reveal_strlit("\n  class      restricted — an entry here can stop a movement of it, so a transfer presents this record\n");
    reveal_strlit("\n  class      plain — nothing here can stop a movement, so a transfer pays for none of it\n");
    assert("  class      "@ + mark + "\n"@ =~= marked);
    assert("  class      "@ + bare + "\n"@ =~= bared);
    assert("\n"@ + marked =~= "\n  class      restricted — an entry here can stop a movement of it, so a transfer presents this record\n"@);
    assert("\n"@ + bared =~= "\n  class      plain — nothing here can stop a movement, so a transfer pays for none of it\n"@);
    let kind = crate::explain::literal::kind_spelling(record.kind);
    let issued = "  issued by  "@ + crate::explain::literal::address_spelling(record.namespace);
    let here = "resource "@ + crate::explain::literal::address_spelling(restricted.as_address())
        + "  "@ + kind + "\n"@ + issued;
    let there = "resource "@ + crate::explain::literal::address_spelling(plain.as_address())
        + "  "@ + kind + "\n"@ + issued;
    let one = crate::explain::record::record_spelling(record, restricted);
    let other = crate::explain::record::record_spelling(record, plain);
    assert(one =~= (here + "\n"@) + marked + entries);
    assert(other =~= (there + "\n"@) + bared + entries);
    lemma_shows(here, "\n"@ + marked, entries);
    lemma_shows(there, "\n"@ + bared, entries);
    assert(one =~= here + ("\n"@ + marked) + entries);
    assert(other =~= there + ("\n"@ + bared) + entries);
}

/// Whether a demand is the first a record lists under its behaviour.
pub open spec fn first_listed(record: ResourceMeta, i: int) -> bool {
    &&& 0 <= i < record.demands@.len()
    &&& forall|j: int|
        0 <= j < i ==> (#[trigger] record.demands@[j]).0 != record.demands@[i].0
}

/// The first demand under a behaviour is the one a lookup finds.
proof fn lemma_first_demand(
    demands: Seq<(GrantedBehaviour, Demand)>,
    behaviour: GrantedBehaviour,
    i: int,
)
    requires
        0 <= i < demands.len(),
        demands[i].0 == behaviour,
        forall|j: int| 0 <= j < i ==> (#[trigger] demands[j]).0 != behaviour,
    ensures
        crate::record::first_demand(demands, behaviour) == Some(demands[i].1),
    decreases i,
{
    if i > 0 {
        let rest = demands.skip(1);
        assert(demands[0].0 != behaviour);
        assert forall|j: int| 0 <= j < i - 1 implies (#[trigger] rest[j]).0 != behaviour by {
            assert(rest[j] == demands[j + 1]);
        }
        assert(rest[i - 1] == demands[i]);
        lemma_first_demand(rest, behaviour, i - 1);
    }
}

/// No demand under a behaviour is none found.
proof fn lemma_no_demand(
    demands: Seq<(GrantedBehaviour, Demand)>,
    behaviour: GrantedBehaviour,
)
    requires
        forall|j: int| 0 <= j < demands.len() ==> (#[trigger] demands[j]).0 != behaviour,
    ensures
        crate::record::first_demand(demands, behaviour) is None,
    decreases demands.len(),
{
    if demands.len() > 0 {
        let rest = demands.skip(1);
        assert(demands[0].0 != behaviour);
        assert forall|j: int| 0 <= j < rest.len() implies (#[trigger] rest[j]).0 != behaviour by {
            assert(rest[j] == demands[j + 1]);
        }
        lemma_no_demand(rest, behaviour);
    }
}

/// A record's rendering holds a line for every behaviour it makes a demand
/// under, naming the behaviour and what the first demand listed under it
/// asks.
pub proof fn law_a_record_lists_its_demands(record: ResourceMeta, address: ResourceAddr, i: int)
    requires
        first_listed(record, i),
    ensures
        ({
            let (behaviour, demand) = record.demands@[i];
            shows(
                crate::explain::record::record_spelling(record, address),
                "  "@ + crate::text::left_text(behaviour.label(), 9) + "  "@
                    + crate::explain::record::demand_spelling(demand, record.namespace) + "\n"@,
            )
        }),
{
    let (behaviour, demand) = record.demands@[i];
    lemma_first_demand(record.demands@, behaviour, i);
    let lines = crate::explain::record::entry_lines(record);
    let place: int = behaviour.rank();
    assert(crate::explain::record::all_behaviours()[place] == behaviour);
    lemma_run_shows(lines, place);
    let whole = crate::explain::record::record_spelling(record, address);
    let entries = crate::text::run_on(lines);
    let before = whole.take(whole.len() - entries.len());
    assert(whole =~= before + entries + Seq::<char>::empty());
    lemma_shows(before, entries, Seq::empty());
    lemma_shows_within(whole, entries, lines[place]);
}

/// A record that makes no demand lists none: its rendering ends with its
/// class line.
#[verifier::rlimit(60)]
pub proof fn law_a_record_of_no_demands_lists_none(record: ResourceMeta, address: ResourceAddr)
    requires
        record.demands@.len() == 0,
    ensures
        ({
            let last = if address.as_address().class == AddressClass::Restricted {
                "so a transfer presents this record\n"@
            } else {
                "so a transfer pays for none of it\n"@
            };
            last.is_suffix_of(crate::explain::record::record_spelling(record, address))
        }),
{
    let lines = crate::explain::record::entry_lines(record);
    assert(crate::text::run_on(lines) =~= Seq::empty()) by {
        lemma_blank_run(lines);
    }
    reveal_strlit("\n");
    reveal_strlit("restricted — an entry here can stop a movement of it, so a transfer presents this record");
    reveal_strlit("plain — nothing here can stop a movement, so a transfer pays for none of it");
    reveal_strlit("so a transfer presents this record\n");
    reveal_strlit("so a transfer pays for none of it\n");
    let whole = crate::explain::record::record_spelling(record, address);
    if address.restricted {
        let last = "so a transfer presents this record\n"@;
        assert(whole.subrange(whole.len() - last.len(), whole.len() as int) =~= last);
    } else {
        let last = "so a transfer pays for none of it\n"@;
        assert(whole.subrange(whole.len() - last.len(), whole.len() as int) =~= last);
    }
}

/// Nothing put together is nothing.
proof fn lemma_blank_run(parts: Seq<Seq<char>>)
    requires
        forall|i: int| 0 <= i < parts.len() ==> (#[trigger] parts[i]).len() == 0,
    ensures
        crate::text::run_on(parts).len() == 0,
    decreases parts.len(),
{
    if parts.len() > 0 {
        assert forall|i: int| 0 <= i < parts.drop_last().len() implies (
        #[trigger] parts.drop_last()[i]).len() == 0 by {
            assert(parts.drop_last()[i] == parts[i]);
        }
        lemma_blank_run(parts.drop_last());
        assert(parts.last() == parts[parts.len() - 1]);
    }
}

/// What an entry asks reads as it is: one nothing can read, one the
/// issuer's own code answers, one anyone meets, one nobody does, and any
/// other by its rule and by when that rule is heard.
#[verifier::rlimit(60)]
pub proof fn law_a_demand_reads_as_it_asks(demand: Demand, issuer: Address)
    ensures
        ({
            let text = crate::explain::record::demand_spelling(demand, issuer);
            match demand {
                Demand::Unreadable => text == "unreadable"@,
                Demand::Nothing => text
                    == "the issuer's own code, which proves nothing to itself"@,
                Demand::Asked(rule) => match rule {
                    Rule::CountOf { count, rules } => {
                        &&& count == 0 && rules@.len() == 0 ==> text == "anyone"@
                        &&& count == 1 && rules@.len() == 0 ==> text == "nobody, ever"@
                        &&& rules@.len() > 0 || count > 1 ==> shows(
                            text,
                            crate::text::decimal_text(count as nat) + " of ("@,
                        ) && shows(text, " — heard "@ + heard_at(rule))
                    },
                    Rule::Require(leaf) => shows(text, " — heard "@ + heard_at(rule)) && match leaf {
                        SealedLeaf::Claim(claim) => if claim.subject == issuer {
                            "approval on the issuer"@.is_prefix_of(text)
                        } else {
                            ("approval on "@ + crate::explain::literal::claim_spelling(
                                claim,
                            )).is_prefix_of(text)
                        },
                        SealedLeaf::Held { badge, holding } => {
                            &&& ("the moving party holds "@
                                + crate::explain::record::holding_spelling(
                                holding,
                            ) + " of "@).is_prefix_of(text)
                            &&& shows(
                                text,
                                crate::explain::literal::address_spelling(badge.as_address()),
                            )
                        },
                    },
                },
            }
        }),
{
    let text = crate::explain::record::demand_spelling(demand, issuer);
    match demand {
        Demand::Asked(rule) => {
            if !rule.is_always() && !rule.is_never() {
                lemma_heard_at(rule);
                let asked = crate::explain::record::sealed_spelling(rule, Some(issuer));
                let heard = crate::explain::literal::heard_spelling(rule.stage());
                lemma_shows(asked, " — heard "@ + heard, Seq::empty());
                assert(text =~= asked + (" — heard "@ + heard) + Seq::<char>::empty());
                match rule {
                    Rule::CountOf { count, rules } => {
                        let lead = crate::text::decimal_text(count as nat) + " of ("@;
                        let rest = crate::text::joined_text(
                            crate::explain::record::sealed_spellings(rules@, Some(issuer)),
                            ", "@,
                        ) + ")"@ + " — heard "@ + heard;
                        lemma_shows(Seq::empty(), lead, rest);
                        assert(text =~= Seq::<char>::empty() + lead + rest);
                    },
                    Rule::Require(leaf) => {
                        match leaf {
                            SealedLeaf::Held { badge, holding } => {
                                let lead = "the moving party holds "@
                                    + crate::explain::record::holding_spelling(holding)
                                    + " of "@;
                                let named = crate::explain::literal::address_spelling(
                                    badge.as_address(),
                                );
                                let rest = " — heard "@ + heard;
                                lemma_shows(lead, named, rest);
                                assert(text =~= lead + named + rest);
                            },
                            _ => {},
                        }
                    },
                }
            }
        },
        _ => {},
    }
}

/// When a sealed rule is heard: before it is a transaction where every
/// leaf is an approval, before any body runs where every leaf is a
/// holding, and inside the call where it asks for both.
pub open spec fn heard_at(rule: StoredRule) -> Seq<char> {
    let leaves = rule.all_leaves();
    if forall|i: int| 0 <= i < leaves.len() ==> #[trigger] leaves[i] is Claim {
        "before it is a transaction"@
    } else if forall|i: int| 0 <= i < leaves.len() ==> #[trigger] leaves[i] is Held {
        "before any body runs"@
    } else {
        "inside the call, after a caller may have committed"@
    }
}

/// A sealed rule is heard when its leaves are.
proof fn lemma_heard_at(rule: StoredRule)
    ensures
        crate::explain::literal::heard_spelling(rule.stage()) == heard_at(rule),
{
    let leaves = rule.all_leaves();
    if leaves.len() > 0 {
        let first = leaves[0];
        assert forall|i: int| 0 <= i < leaves.len() implies ((#[trigger] leaves[i]).stage()
            == first.stage()) == (leaves[i] is Claim == first is Claim) by {}
        if forall|i: int| 0 <= i < leaves.len() ==> (#[trigger] leaves[i]).stage() == first.stage() {
            if first is Claim {
                assert forall|i: int| 0 <= i < leaves.len() implies #[trigger] leaves[i]
                    is Claim by {
                    assert(leaves[i].stage() == first.stage());
                }
            } else {
                assert forall|i: int| 0 <= i < leaves.len() implies #[trigger] leaves[i]
                    is Held by {
                    assert(leaves[i].stage() == first.stage());
                }
            }
        } else {
            let k = choose|k: int|
                0 <= k < leaves.len() && (#[trigger] leaves[k]).stage() != first.stage();
            assert(leaves[k] is Claim != first is Claim);
        }
    }
}

/// A sealed threshold shows each rule it counts, and says how many of them
/// are asked for.
pub proof fn law_a_threshold_shows_its_rules(
    count: u32,
    rules: Vec<StoredRule>,
    issuer: Option<Address>,
    i: int,
)
    requires
        0 <= i < rules@.len(),
    ensures
        shows(
            crate::explain::record::sealed_spelling(Rule::CountOf { count, rules }, issuer),
            crate::explain::record::sealed_spelling(rules@[i], issuer),
        ),
        (crate::text::decimal_text(count as nat) + " of ("@).is_prefix_of(
            crate::explain::record::sealed_spelling(Rule::CountOf { count, rules }, issuer),
        ),
{
    let parts = crate::explain::record::sealed_spellings(rules@, issuer);
    let list = crate::text::joined_text(parts, ", "@);
    let lead = crate::text::decimal_text(count as nat) + " of ("@;
    let whole = crate::explain::record::sealed_spelling(
        Rule::<SealedLeaf>::CountOf { count, rules },
        issuer,
    );
    assert(whole =~= lead + list + ")"@);
    assert(parts[i] == crate::explain::record::sealed_spelling(rules@[i], issuer));
    lemma_list_shows(parts, ", "@, i);
    lemma_shows(lead, list, ")"@);
    lemma_shows_within(whole, list, parts[i]);
}

/// A record's rendering opens with the resource it is of, in full, its
/// kind, and its issuer, in full.
#[verifier::rlimit(60)]
pub proof fn law_a_record_opens_with_what_it_is(record: ResourceMeta, address: ResourceAddr)
    ensures
        ({
            let kind = if record.kind == ResourceKind::NonFungible {
                "  non-fungible\n"@
            } else {
                "  fungible\n"@
            };
            ("resource "@ + crate::explain::literal::address_spelling(address.as_address()) + kind
                + "  issued by  "@ + crate::explain::literal::address_spelling(record.namespace)
                + "\n"@).is_prefix_of(crate::explain::record::record_spelling(record, address))
        }),
{
    reveal_strlit("  non-fungible\n");
    reveal_strlit("  fungible\n");
    reveal_strlit("non-fungible");
    reveal_strlit("fungible");
    reveal_strlit("  ");
    reveal_strlit("\n");
    assert("  "@ + "non-fungible"@ + "\n"@ =~= "  non-fungible\n"@);
    assert("  "@ + "fungible"@ + "\n"@ =~= "  fungible\n"@);
    let kind = crate::explain::literal::kind_spelling(record.kind);
    let named = crate::explain::literal::address_spelling(address.as_address());
    assert("resource "@ + named + "  "@ + kind + "\n"@ =~= "resource "@ + named + ("  "@ + kind
        + "\n"@));
    let head = "resource "@ + named + ("  "@ + kind + "\n"@) + "  issued by  "@
        + crate::explain::literal::address_spelling(record.namespace) + "\n"@;
    let whole = crate::explain::record::record_spelling(record, address);
    assert(whole.subrange(0, head.len() as int) =~= head);
}

} // verus!
