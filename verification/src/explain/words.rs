//! The words a rendering is made of: what each says, and that no two
//! things are called by one word.
use vstd::prelude::*;

use crate::address::AddressClass;
use crate::dsl::{ModeExpr, TargetExpr};
use crate::effect::{Moves, Presence};
use crate::explain::names::Lexicon;
use crate::metadata::SlotKind;
use crate::record::Holding;
use crate::resource::{GrantedBehaviour, ResourceKind};
use crate::rule::Judged;
use crate::signature::{Issued, ParamType, Totality};
use crate::vocabulary::{
    AUTH, CONFIG, HALT, INSTANCE, NF_VAULT, NULLIFIER_SLOT, PACKAGE_SLOT, RESOURCE, VAULT,
};

verus! {

/// Which way a movement goes can be read off its rendering: whatever it
/// moves through, one that brings value in is a credit, one that takes it
/// out a debit and one that may do either a delta, so two render alike
/// exactly where they move the same way.
pub proof fn law_a_movement_reads_by_its_direction(
    lexicon: Lexicon,
    one: Moves,
    other: Moves,
    target: TargetExpr,
    holds_value: bool,
)
    ensures
        lexicon.mode(ModeExpr::Delta { moves: one }, target, holds_value) == lexicon.mode(
            ModeExpr::Delta { moves: other },
            target,
            holds_value,
        ) <==> one == other,
        one == Moves::In ==> lexicon.mode(ModeExpr::Delta { moves: one }, target, holds_value)
            == "credit"@,
        one == Moves::Out ==> lexicon.mode(ModeExpr::Delta { moves: one }, target, holds_value)
            == "debit"@,
        one == Moves::Both ==> lexicon.mode(ModeExpr::Delta { moves: one }, target, holds_value)
            == "delta"@,
{
    reveal_strlit("delta");
    reveal_strlit("credit");
    reveal_strlit("debit");
    let left = lexicon.mode(ModeExpr::Delta { moves: one }, target, holds_value);
    let right = lexicon.mode(ModeExpr::Delta { moves: other }, target, holds_value);
    if left == right {
        assert(left.len() == right.len());
        assert(left[2] == right[2]);
    }
}

/// Which way value moves under a rewrite can be read off its rendering
/// where the cell holds value, and so can whether it is one leaf or a
/// collection that is moved through; a cell that holds none is written,
/// whatever way the rewrite says.
pub proof fn law_a_rewrite_reads_by_its_direction(
    lexicon: Lexicon,
    one: Moves,
    other: Moves,
    left: TargetExpr,
    right: TargetExpr,
)
    ensures
        lexicon.mode(ModeExpr::Write { moves: one }, left, true) == lexicon.mode(
            ModeExpr::Write { moves: other },
            right,
            true,
        ) <==> one == other && (one == Moves::Both || (left is Point <==> right is Point)),
        lexicon.mode(ModeExpr::Write { moves: one }, left, false) == "write"@,
        one == Moves::Both ==> lexicon.mode(ModeExpr::Write { moves: one }, left, true)
            == "write"@,
        one == Moves::In && left is Point ==> lexicon.mode(
            ModeExpr::Write { moves: one },
            left,
            true,
        ) == "credit-only"@,
        one == Moves::Out && left is Point ==> lexicon.mode(
            ModeExpr::Write { moves: one },
            left,
            true,
        ) == "debit-only"@,
        one == Moves::In && !(left is Point) ==> lexicon.mode(
            ModeExpr::Write { moves: one },
            left,
            true,
        ) == "file"@,
        one == Moves::Out && !(left is Point) ==> lexicon.mode(
            ModeExpr::Write { moves: one },
            left,
            true,
        ) == "take"@,
{
    reveal_strlit("write");
    reveal_strlit("credit-only");
    reveal_strlit("debit-only");
    reveal_strlit("file");
    reveal_strlit("take");
    let here = lexicon.mode(ModeExpr::Write { moves: one }, left, true);
    let there = lexicon.mode(ModeExpr::Write { moves: other }, right, true);
    if here == there {
        assert(here.len() == there.len());
        assert(here[0] == there[0]);
    }
}

/// Reading, moving, reserving and rewriting are told apart: no two of
/// them render alike.
pub proof fn law_modes_of_two_kinds_render_apart(
    lexicon: Lexicon,
    amount: crate::dsl::Expr,
    moves: Moves,
    rewrites: Moves,
    target: TargetExpr,
    holds_value: bool,
)
    ensures
        lexicon.mode(ModeExpr::Read, target, holds_value) == "read"@,
        "reserve "@.is_prefix_of(lexicon.mode(ModeExpr::Reserve(amount), target, holds_value)),
        !"reserve "@.is_prefix_of(lexicon.mode(ModeExpr::Read, target, holds_value)),
        !"reserve "@.is_prefix_of(lexicon.mode(ModeExpr::Delta { moves }, target, holds_value)),
        !"reserve "@.is_prefix_of(
            lexicon.mode(ModeExpr::Write { moves: rewrites }, target, holds_value),
        ),
        lexicon.mode(ModeExpr::Read, target, holds_value) != lexicon.mode(
            ModeExpr::Delta { moves },
            target,
            holds_value,
        ),
        lexicon.mode(ModeExpr::Read, target, holds_value) != lexicon.mode(
            ModeExpr::Write { moves: rewrites },
            target,
            holds_value,
        ),
        lexicon.mode(ModeExpr::Delta { moves }, target, holds_value) != lexicon.mode(
            ModeExpr::Write { moves: rewrites },
            target,
            holds_value,
        ),
{
    reveal_strlit("reserve ");
    reveal_strlit("read");
    reveal_strlit("delta");
    reveal_strlit("credit");
    reveal_strlit("debit");
    reveal_strlit("write");
    reveal_strlit("credit-only");
    reveal_strlit("debit-only");
    reveal_strlit("file");
    reveal_strlit("take");
    let read = lexicon.mode(ModeExpr::Read, target, holds_value);
    let moved = lexicon.mode(ModeExpr::Delta { moves }, target, holds_value);
    let written = lexicon.mode(ModeExpr::Write { moves: rewrites }, target, holds_value);
    assert("reserve "@[0] == 'r');
    assert(moved[0] != 'r');
    assert(written[0] != 'r');
    assert(read.len() < "reserve "@.len());
    if moved == written {
        assert(moved.len() == written.len());
    }
}

/// A class is called by its own name, and no two by one.
pub proof fn law_classes_are_called_apart(one: AddressClass, other: AddressClass)
    ensures
        crate::explain::literal::class_label(one) == crate::explain::literal::class_label(other)
            <==> one == other,
        one == AddressClass::Principal ==> crate::explain::literal::class_label(one)
            == "principal"@,
        one == AddressClass::Component ==> crate::explain::literal::class_label(one)
            == "component"@,
        one == AddressClass::Package ==> crate::explain::literal::class_label(one) == "package"@,
        one == AddressClass::Resource ==> crate::explain::literal::class_label(one) == "resource"@,
        one == AddressClass::Restricted ==> crate::explain::literal::class_label(one)
            == "restricted"@,
        one == AddressClass::Native ==> crate::explain::literal::class_label(one) == "native"@,
{
    reveal_strlit("principal");
    reveal_strlit("component");
    reveal_strlit("package");
    reveal_strlit("resource");
    reveal_strlit("restricted");
    reveal_strlit("native");
    let left = crate::explain::literal::class_label(one);
    let right = crate::explain::literal::class_label(other);
    if left == right {
        assert(left.len() == right.len());
        assert(left[0] == right[0]);
    }
}

/// A resource's kind reads as it is, and the two read apart.
pub proof fn law_resource_kinds_read_apart()
    ensures
        crate::explain::literal::kind_spelling(ResourceKind::Fungible) == "fungible"@,
        crate::explain::literal::kind_spelling(ResourceKind::NonFungible) == "non-fungible"@,
        crate::explain::literal::kind_spelling(ResourceKind::Fungible)
            != crate::explain::literal::kind_spelling(ResourceKind::NonFungible),
{
    reveal_strlit("fungible");
    reveal_strlit("non-fungible");
    assert("fungible"@.len() != "non-fungible"@.len());
}

/// How surely a method returns reads as it is, and no two read alike.
pub proof fn law_totalities_read_apart(one: Totality, other: Totality)
    ensures
        crate::explain::literal::totality_spelling(one)
            == crate::explain::literal::totality_spelling(other) <==> one == other,
        one == Totality::Fallible ==> crate::explain::literal::totality_spelling(one)
            == "fallible"@,
        one == Totality::Infallible ==> crate::explain::literal::totality_spelling(one)
            == "infallible"@,
        one == Totality::Total ==> crate::explain::literal::totality_spelling(one) == "total"@,
{
    reveal_strlit("fallible");
    reveal_strlit("infallible");
    reveal_strlit("total");
    let left = crate::explain::literal::totality_spelling(one);
    let right = crate::explain::literal::totality_spelling(other);
    if left == right {
        assert(left.len() == right.len());
    }
}

/// The shape of state a slot holds reads as it is, and no two read alike.
pub proof fn law_slot_kinds_read_apart(one: SlotKind, other: SlotKind)
    ensures
        crate::explain::literal::slot_kind_spelling(one)
            == crate::explain::literal::slot_kind_spelling(other) <==> one == other,
        one == SlotKind::Cell ==> crate::explain::literal::slot_kind_spelling(one) == "one leaf"@,
        one == SlotKind::Keyed ==> crate::explain::literal::slot_kind_spelling(one)
            == "a leaf per key"@,
        one == SlotKind::Ordered ==> crate::explain::literal::slot_kind_spelling(one)
            == "an ordered collection"@,
        one == SlotKind::Unordered ==> crate::explain::literal::slot_kind_spelling(one)
            == "an unordered collection"@,
{
    reveal_strlit("one leaf");
    reveal_strlit("a leaf per key");
    reveal_strlit("an ordered collection");
    reveal_strlit("an unordered collection");
    let left = crate::explain::literal::slot_kind_spelling(one);
    let right = crate::explain::literal::slot_kind_spelling(other);
    if left == right {
        assert(left.len() == right.len());
    }
}

/// When a rule is heard reads as it is, and no two read alike.
pub proof fn law_stages_read_apart(one: Judged, other: Judged)
    ensures
        crate::explain::literal::heard_spelling(one) == crate::explain::literal::heard_spelling(
            other,
        ) <==> one == other,
        one == Judged::AtAdmission ==> crate::explain::literal::heard_spelling(one)
            == "before it is a transaction"@,
        one == Judged::AtMaterialization ==> crate::explain::literal::heard_spelling(one)
            == "before any body runs"@,
        one == Judged::InTheLeg ==> crate::explain::literal::heard_spelling(one)
            == "inside the call, after a caller may have committed"@,
{
    reveal_strlit("before it is a transaction");
    reveal_strlit("before any body runs");
    reveal_strlit("inside the call, after a caller may have committed");
    let left = crate::explain::literal::heard_spelling(one);
    let right = crate::explain::literal::heard_spelling(other);
    if left == right {
        assert(left.len() == right.len());
    }
}

/// What is required of a leaf's presence reads as it is, and no two read
/// alike.
pub proof fn law_presences_read_apart(one: Presence, other: Presence)
    ensures
        crate::explain::literal::presence_spelling(one)
            == crate::explain::literal::presence_spelling(other) <==> one == other,
        one == Presence::Present ==> crate::explain::literal::presence_spelling(one) == "there"@,
        one == Presence::Absent ==> crate::explain::literal::presence_spelling(one)
            == "not there"@,
        one == Presence::Either ==> crate::explain::literal::presence_spelling(one)
            == "either way"@,
{
    reveal_strlit("there");
    reveal_strlit("not there");
    reveal_strlit("either way");
    let left = crate::explain::literal::presence_spelling(one);
    let right = crate::explain::literal::presence_spelling(other);
    if left == right {
        assert(left.len() == right.len());
    }
}

/// A behaviour is called by its own name, and no two by one.
pub proof fn law_behaviours_are_called_apart(one: GrantedBehaviour, other: GrantedBehaviour)
    ensures
        one.label() == other.label() <==> one == other,
        one == GrantedBehaviour::Mint ==> one.label() == "mint"@,
        one == GrantedBehaviour::Burn ==> one.label() == "burn"@,
        one == GrantedBehaviour::Withdraw ==> one.label() == "withdraw"@,
        one == GrantedBehaviour::Deposit ==> one.label() == "deposit"@,
        one == GrantedBehaviour::Freeze ==> one.label() == "freeze"@,
        one == GrantedBehaviour::Recall ==> one.label() == "recall"@,
{
    reveal_strlit("mint");
    reveal_strlit("burn");
    reveal_strlit("withdraw");
    reveal_strlit("deposit");
    reveal_strlit("freeze");
    reveal_strlit("recall");
    if one.label() == other.label() {
        assert(one.label().len() == other.label().len());
        assert(one.label()[0] == other.label()[0]);
    }
}

/// Which way a method changes supply reads as it is, and no two read
/// alike.
pub proof fn law_issuances_read_apart(one: Issued, other: Issued)
    ensures
        crate::explain::package::direction_spelling(one)
            == crate::explain::package::direction_spelling(other) <==> one == other,
        one == Issued::Minted ==> crate::explain::package::direction_spelling(one)
            == "mints    "@,
        one == Issued::Burned ==> crate::explain::package::direction_spelling(one)
            == "burns    "@,
        one == Issued::Either ==> crate::explain::package::direction_spelling(one)
            == "issues   "@,
{
    reveal_strlit("mints    ");
    reveal_strlit("burns    ");
    reveal_strlit("issues   ");
    let left = crate::explain::package::direction_spelling(one);
    let right = crate::explain::package::direction_spelling(other);
    if left == right {
        assert(left[0] == right[0]);
    }
}

/// A parameter's kind reads as it is, and no two read alike: a width is
/// part of it.
pub proof fn law_params_read_apart(one: ParamType, other: ParamType)
    ensures
        crate::explain::package::param_spelling(one) == crate::explain::package::param_spelling(
            other,
        ) <==> one == other,
        one is U64 ==> crate::explain::package::param_spelling(one) == "u64"@,
        one is U128 ==> crate::explain::package::param_spelling(one) == "u128"@,
        one is Resource ==> crate::explain::package::param_spelling(one) == "resource"@,
        one is Bucket ==> crate::explain::package::param_spelling(one) == "bucket"@,
        one is NfBucket ==> crate::explain::package::param_spelling(one) == "nf-bucket"@,
        "[u8; "@.is_prefix_of(crate::explain::package::param_spelling(one)) <==> one is BytesExact,
{
    reveal_strlit("u64");
    reveal_strlit("u128");
    reveal_strlit("resource");
    reveal_strlit("bucket");
    reveal_strlit("nf-bucket");
    reveal_strlit("[u8; ");
    reveal_strlit("]");
    let left = crate::explain::package::param_spelling(one);
    let right = crate::explain::package::param_spelling(other);
    assert("[u8; "@[0] == '[');
    assert(one is BytesExact ==> left[0] == '[');
    assert(other is BytesExact ==> right[0] == '[');
    assert(!(one is BytesExact) ==> left[0] != '[');
    match (one, other) {
        (ParamType::BytesExact(here), ParamType::BytesExact(there)) => {
            if left == right {
                let digits = crate::text::decimal_text(here as nat);
                let figures = crate::text::decimal_text(there as nat);
                assert(left.len() == right.len());
                assert(left.subrange(5, left.len() - 1) =~= digits);
                assert(right.subrange(5, right.len() - 1) =~= figures);
                crate::text::lemma_decimal_text(here as nat, there as nat);
            }
        },
        _ => {
            if left == right {
                assert(left.len() == right.len());
                assert(left[0] == right[0]);
            }
        },
    }
}

/// How much of a badge is asked for reads as it is, and no two read alike.
pub proof fn law_holdings_read_apart(one: Holding, other: Holding)
    ensures
        crate::explain::record::holding_spelling(one) == crate::explain::record::holding_spelling(
            other,
        ) <==> one == other,
        one is Balance ==> crate::explain::record::holding_spelling(one) == "a balance"@,
        one is AnyInstance ==> crate::explain::record::holding_spelling(one) == "any instance"@,
        "instance "@.is_prefix_of(crate::explain::record::holding_spelling(one)) <==> one
            is Instance,
{
    reveal_strlit("a balance");
    reveal_strlit("any instance");
    reveal_strlit("instance ");
    let left = crate::explain::record::holding_spelling(one);
    let right = crate::explain::record::holding_spelling(other);
    assert("instance "@[0] == 'i');
    match (one, other) {
        (Holding::Instance(here), Holding::Instance(there)) => {
            if left == right {
                assert(left.skip(9) =~= crate::text::decimal_text(here as nat));
                assert(right.skip(9) =~= crate::text::decimal_text(there as nat));
                crate::text::lemma_decimal_text(here as nat, there as nat);
            }
        },
        _ => {
            if left == right {
                assert(left.len() == right.len());
                assert(left[0] == right[0]);
                assert(left[1] == right[1]);
            }
        },
    }
}

/// A slot the protocol assigns is called by the name of its cell, whatever
/// a package calls its own.
pub proof fn law_protocol_slots_are_called_by_their_cells(lexicon: Lexicon, slot: u16)
    ensures
        slot == VAULT ==> lexicon.fixed_slot(crate::types::SlotId(slot)) == "vault"@,
        slot == HALT ==> lexicon.fixed_slot(crate::types::SlotId(slot)) == "halt"@,
        slot == CONFIG ==> lexicon.fixed_slot(crate::types::SlotId(slot)) == "config"@,
        slot == AUTH ==> lexicon.fixed_slot(crate::types::SlotId(slot)) == "auth"@,
        slot == RESOURCE ==> lexicon.fixed_slot(crate::types::SlotId(slot)) == "resource"@,
        slot == NF_VAULT ==> lexicon.fixed_slot(crate::types::SlotId(slot)) == "nf-vault"@,
        slot == INSTANCE ==> lexicon.fixed_slot(crate::types::SlotId(slot)) == "instance"@,
        slot == PACKAGE_SLOT ==> lexicon.fixed_slot(crate::types::SlotId(slot)) == "package"@,
        slot == NULLIFIER_SLOT ==> lexicon.fixed_slot(crate::types::SlotId(slot))
            == "nullifier"@,
{
}

} // verus!
