//! The declared footprint: what a declaration claims, in units a fee
//! schedule can price.
//!
//! Three axes. The span is how much key space a target names: one leaf for
//! a point or an entry, and for a range the order-key magnitude of its
//! interval. The weight is how much of the mode lattice the claim
//! excludes, counted off [`compatible`] itself. The depth is how much
//! execution the claim buys: the entries a body may walk through it.
//!
//! Span and weight multiply; depth adds. The first two together price
//! exclusion, and depth prices work. Nothing here reads state.
use vstd::prelude::*;

use crate::effect::{Effect, EffectTarget, ModeKind};

verus! {

/// Units charged for naming one target at all, before any span.
pub const TARGET_UNITS: u64 = 1;

/// Units charged for each order-key bit of a range's span.
pub const SPAN_UNITS: u64 = 1;

/// Units charged for each entry a declaration lets execution touch.
pub const DEPTH_UNITS: u64 = 1;

/// The entries-worth of work one interval seek costs before any entry
/// comes back: the declared floor of a scan.
pub const SCAN_SEEK_ENTRIES: usize = 4;

/// The weight a mode that excluded nothing would carry: the floor every
/// mode weight is measured up from.
pub const EXCLUSIVITY_FLOOR: u64 = 1;

/// Whether a kind of mode commutes with the others that do.
pub open spec fn commutes(kind: ModeKind) -> bool {
    kind == ModeKind::Delta || kind == ModeKind::Credit || kind == ModeKind::Reserve
}

/// Whether two kinds of mode can share a key: two reads can, and two that
/// commute can.
pub open spec fn can_share(left: ModeKind, right: ModeKind) -> bool {
    (left == ModeKind::Read && right == ModeKind::Read) || (commutes(left) && commutes(right))
}

/// Whether two kinds of mode can share a key.
pub fn compatible(left: ModeKind, right: ModeKind) -> (r: bool)
    ensures
        r == can_share(left, right),
{
    match left {
        ModeKind::Read => match right {
            ModeKind::Read => true,
            _ => false,
        },
        ModeKind::Write => false,
        _ => match right {
            ModeKind::Read => false,
            ModeKind::Write => false,
            _ => true,
        },
    }
}

/// Every kind of mode.
pub open spec fn all_kinds() -> Seq<ModeKind> {
    seq![ModeKind::Read, ModeKind::Delta, ModeKind::Credit, ModeKind::Reserve, ModeKind::Write]
}

/// How many of a run of kinds cannot share a key with `kind`.
pub open spec fn excluded(kind: ModeKind, kinds: Seq<ModeKind>) -> nat
    decreases kinds.len(),
{
    if kinds.len() == 0 {
        0
    } else {
        excluded(kind, kinds.drop_last()) + if can_share(kind, kinds.last()) {
            0nat
        } else {
            1nat
        }
    }
}

/// How much of the lattice `kind` excludes, as a multiplier on span.
pub open spec fn weight(kind: ModeKind) -> nat {
    EXCLUSIVITY_FLOOR as nat + excluded(kind, all_kinds())
}

/// How much of the lattice `kind` excludes, as a multiplier on span.
///
/// Counted from [`compatible`], so the ordering is the lattice's rather
/// than a judgement. The placement of a read above the commutative modes
/// is the part worth stating out loud: two deltas on one amount cell
/// coexist; a single fresh read on that cell conflicts with both.
pub fn mode_weight(kind: ModeKind) -> (r: u64)
    ensures
        r == weight(kind),
{
    let kinds: [ModeKind; 5] = [
        ModeKind::Read,
        ModeKind::Delta,
        ModeKind::Credit,
        ModeKind::Reserve,
        ModeKind::Write,
    ];
    assert(kinds@ =~= all_kinds());
    let mut out: u64 = 0;
    let mut index: usize = 0;
    while index < 5
        invariant
            index <= 5,
            kinds@ == all_kinds(),
            out <= index,
            out == excluded(kind, all_kinds().take(index as int)),
        decreases 5 - index,
    {
        proof {
            let longer = all_kinds().take(index as int + 1);
            assert(longer.drop_last() =~= all_kinds().take(index as int));
            assert(longer.last() == kinds@[index as int]);
        }
        if !compatible(kind, kinds[index]) {
            out = out + 1;
        }
        index = index + 1;
    }
    assert(all_kinds().take(index as int) =~= all_kinds());
    EXCLUSIVITY_FLOOR + out
}

/// How many binary digits a number has: none for zero.
pub open spec fn binary_digits(number: nat) -> nat
    decreases number,
{
    if number == 0 {
        0
    } else {
        1 + binary_digits(number / 2)
    }
}

/// A number below a power of two has no more digits than its exponent.
proof fn lemma_digits_below(number: nat, exponent: nat)
    requires
        number < vstd::arithmetic::power2::pow2(exponent),
    ensures
        binary_digits(number) <= exponent,
    decreases exponent,
{
    if number > 0 {
        if exponent == 0 {
            vstd::arithmetic::power2::lemma2_to64();
        } else {
            vstd::arithmetic::power2::lemma_pow2_unfold(exponent);
            lemma_digits_below(number / 2, (exponent - 1) as nat);
        }
    }
}

/// No order key has more than this many digits.
proof fn lemma_order_digits(number: u128)
    ensures
        binary_digits(number as nat) <= 128,
{
    vstd::arithmetic::power2::lemma2_to64();
    vstd::arithmetic::power2::lemma_pow2_adds(64, 64);
    assert(0x1_0000_0000_0000_0000nat * 0x1_0000_0000_0000_0000nat
        == 0x1_0000_0000_0000_0000_0000_0000_0000_0000nat) by (nonlinear_arith);
    lemma_digits_below(number as nat, 128);
}

/// A larger number has no fewer digits.
proof fn lemma_digits_grow(less: nat, more: nat)
    requires
        less <= more,
    ensures
        binary_digits(less) <= binary_digits(more),
    decreases less,
{
    if less > 0 {
        lemma_digits_grow(less / 2, more / 2);
    }
}

/// The order-key bits an interval spans: none where it is empty or holds
/// one key, and otherwise the digits of the distance between its ends.
pub open spec fn spanned_bits(lo: u128, hi: u128) -> nat {
    if hi <= lo {
        0
    } else {
        binary_digits((hi - lo) as nat)
    }
}

/// The order-key bits a range's interval spans: `0` for an empty or
/// single-key interval, `128` for the whole space.
///
/// Orders of magnitude rather than keys: what occupies any interval is
/// state, which a footprint may not read. The magnitude claimed is the
/// measure that stays monotone and finite.
pub fn order_bits(lo: u128, hi: u128) -> (r: u64)
    ensures
        r == spanned_bits(lo, hi),
        r <= 128,
{
    // An inverted interval names nothing; `hi` is inclusive, so an
    // interval and its span differ by one key.
    if hi <= lo {
        return 0;
    }
    let span = hi - lo;
    proof {
        lemma_order_digits(span);
    }
    let mut rest: u128 = span;
    let mut bits: u64 = 0;
    while rest > 0
        invariant
            bits + binary_digits(rest as nat) == binary_digits(span as nat),
            binary_digits(span as nat) <= 128,
        decreases rest,
    {
        rest = rest / 2;
        bits = bits + 1;
    }
    bits
}

/// The key space a target claims, before its mode weighs it.
pub open spec fn span_of(target: EffectTarget) -> nat {
    match target {
        EffectTarget::Range { lo, hi, .. } => TARGET_UNITS as nat + SPAN_UNITS as nat
            * spanned_bits(lo, hi),
        _ => TARGET_UNITS as nat,
    }
}

/// The execution work a target lets a body walk.
pub open spec fn depth_of(target: EffectTarget) -> nat {
    match target {
        EffectTarget::Range { cap, .. } => DEPTH_UNITS as nat * (SCAN_SEEK_ENTRIES as nat
            + cap as nat),
        _ => DEPTH_UNITS as nat,
    }
}

/// What one effect costs: the key space it claims weighted by how much of
/// the lattice the claim excludes, plus the depth its execution may walk.
pub open spec fn cost(effect: Effect) -> nat {
    span_of(effect.target) * weight(effect.mode.conflicts_as()) + depth_of(effect.target)
}

/// The key space `target` claims, before its mode weighs it.
pub fn span_units(target: &EffectTarget) -> (r: u64)
    ensures
        r == span_of(*target),
        r <= 129,
{
    match target {
        EffectTarget::Range { lo, hi, .. } => TARGET_UNITS + SPAN_UNITS * order_bits(*lo, *hi),
        _ => TARGET_UNITS,
    }
}

/// The execution work `target` lets a body walk: one entry for a point or
/// an entry access, and for a range the seek floor plus the cap's worth of
/// entries.
///
/// Charged whatever the mode: a read walks the same page a write does.
pub fn depth_units(target: &EffectTarget) -> (r: u64)
    ensures
        r == depth_of(*target),
        r <= u32::MAX + SCAN_SEEK_ENTRIES,
{
    match target {
        EffectTarget::Range { cap, .. } => DEPTH_UNITS * (SCAN_SEEK_ENTRIES as u64 + *cap as u64),
        _ => DEPTH_UNITS,
    }
}

/// Every weight is at least the floor's one past it, and no more than all
/// the kinds.
proof fn lemma_weights()
    ensures
        weight(ModeKind::Read) == 5,
        weight(ModeKind::Delta) == 3,
        weight(ModeKind::Credit) == 3,
        weight(ModeKind::Reserve) == 3,
        weight(ModeKind::Write) == 6,
{
    reveal_with_fuel(excluded, 6);
    let kinds = all_kinds();
    assert(kinds.drop_last() =~= seq![
        ModeKind::Read,
        ModeKind::Delta,
        ModeKind::Credit,
        ModeKind::Reserve,
    ]);
    assert(kinds.drop_last().drop_last() =~= seq![
        ModeKind::Read,
        ModeKind::Delta,
        ModeKind::Credit,
    ]);
    assert(kinds.drop_last().drop_last().drop_last() =~= seq![ModeKind::Read, ModeKind::Delta]);
    assert(kinds.drop_last().drop_last().drop_last().drop_last() =~= seq![ModeKind::Read]);
    assert(kinds.drop_last().drop_last().drop_last().drop_last().drop_last() =~= Seq::empty());
}

/// One effect's footprint: the key space it claims weighted by how much of
/// the lattice the claim excludes, plus the depth its execution may walk.
pub fn effect_units(effect: Effect) -> (r: u64)
    ensures
        r == cost(effect),
{
    let span = span_units(&effect.target);
    let heavy = mode_weight(effect.mode.kind());
    proof {
        lemma_weights();
        assert(span * heavy <= 129 * 6) by (nonlinear_arith)
            requires
                span <= 129,
                heavy <= 6,
        ;
    }
    span * heavy + depth_units(&effect.target)
}

/// What a run of effects costs together.
pub open spec fn total_cost(effects: Seq<Effect>) -> nat
    decreases effects.len(),
{
    if effects.len() == 0 {
        0
    } else {
        total_cost(effects.drop_last()) + cost(effects.last())
    }
}

/// A cost, as far as a price goes.
pub open spec fn priced(units: nat) -> u64 {
    if units > u64::MAX {
        u64::MAX
    } else {
        units as u64
    }
}

/// A declaration's total footprint.
///
/// Summed for each effect rather than over each collection's union, which
/// prices a fragmented declaration slightly above one interval covering
/// it. Saturating, so the quantity is total for any set.
pub fn footprint(declared: &Vec<Effect>) -> (r: u64)
    ensures
        r == priced(total_cost(declared@)),
{
    let mut total: u64 = 0;
    let mut i: usize = 0;
    assert(declared@.take(0) =~= Seq::empty());
    while i < declared.len()
        invariant
            i <= declared.len(),
            total == priced(total_cost(declared@.take(i as int))),
        decreases declared.len() - i,
    {
        proof {
            let longer = declared@.take(i as int + 1);
            assert(longer.drop_last() =~= declared@.take(i as int));
            assert(longer.last() == declared@[i as int]);
        }
        total = total.saturating_add(effect_units(declared[i]));
        i = i + 1;
    }
    assert(declared@.take(i as int) =~= declared@);
    total
}

/// Sharing a key goes both ways.
pub proof fn law_sharing_goes_both_ways(left: ModeKind, right: ModeKind)
    ensures
        can_share(left, right) == can_share(right, left),
{
}

/// The weight respects the exclusion ordering: a kind that excludes
/// everything another does weighs no less, and one that excludes strictly
/// more weighs strictly more.
pub proof fn law_weight_respects_exclusion(narrow: ModeKind, wide: ModeKind)
    requires
        forall|other: ModeKind|
            !can_share(narrow, other) ==> !#[trigger] can_share(wide, other),
    ensures
        weight(narrow) <= weight(wide),
        (exists|other: ModeKind|
            can_share(narrow, other) && !#[trigger] can_share(wide, other)) ==> weight(narrow)
            < weight(wide),
{
    lemma_weights();
    assert(can_share(wide, ModeKind::Read) ==> can_share(narrow, ModeKind::Read));
    assert(can_share(wide, ModeKind::Delta) ==> can_share(narrow, ModeKind::Delta));
    assert(can_share(wide, ModeKind::Write) ==> can_share(narrow, ModeKind::Write));
}

/// The schedule, kind by kind.
pub proof fn law_every_kind_weighs_what_the_lattice_says(kind: ModeKind)
    ensures
        weight(kind) == (match kind {
            ModeKind::Write => 6nat,
            ModeKind::Read => 5nat,
            _ => 3nat,
        }),
{
    lemma_weights();
}

/// An interval inside another spans no more, and prices no more under the
/// same mode and cap.
pub proof fn law_a_wider_range_costs_no_less(narrow: Effect, wide: Effect)
    requires
        narrow.mode == wide.mode,
        narrow.target is Range,
        wide.target is Range,
        wide.target->lo <= narrow.target->lo,
        narrow.target->hi <= wide.target->hi,
        narrow.target->cap == wide.target->cap,
    ensures
        span_of(narrow.target) <= span_of(wide.target),
        cost(narrow) <= cost(wide),
{
    let (lo, hi) = (narrow.target->lo, narrow.target->hi);
    let (low, high) = (wide.target->lo, wide.target->hi);
    if hi > lo {
        lemma_digits_grow((hi - lo) as nat, (high - low) as nat);
    }
    let heavy = weight(wide.mode.conflicts_as());
    let less = span_of(narrow.target);
    let more = span_of(wide.target);
    assert(less * heavy <= more * heavy) by (nonlinear_arith)
        requires
            less <= more,
    ;
}

/// A range over one key spans what a point does, whatever its cap.
pub proof fn law_one_key_spans_one_leaf(range: EffectTarget, point: EffectTarget)
    requires
        range matches EffectTarget::Range { lo, hi, .. } && lo == hi,
        point is Point,
    ensures
        span_of(range) == span_of(point),
{
}

/// A cap is execution work, and the price moves with it: two effects
/// differing only in their cap price apart by exactly the entries the
/// larger one may walk.
pub proof fn law_a_cap_prices_its_entries(small: Effect, large: Effect)
    requires
        small.mode == large.mode,
        small.target is Range,
        large.target is Range,
        small.target->lo == large.target->lo,
        small.target->hi == large.target->hi,
        small.target->cap <= large.target->cap,
    ensures
        cost(large) - cost(small) == DEPTH_UNITS * (large.target->cap - small.target->cap),
{
}

/// A scan charges its seek before any entry.
pub proof fn law_a_scan_charges_its_seek(target: EffectTarget)
    requires
        target is Range,
    ensures
        depth_of(target) == DEPTH_UNITS * target->cap + DEPTH_UNITS * SCAN_SEEK_ENTRIES,
{
}

/// A declaration totals its effects, in however many parts it is taken.
pub proof fn law_a_declaration_totals_its_parts(left: Seq<Effect>, right: Seq<Effect>)
    ensures
        total_cost(left + right) == total_cost(left) + total_cost(right),
    decreases right.len(),
{
    if right.len() == 0 {
        assert(left + right =~= left);
    } else {
        assert((left + right).drop_last() =~= left + right.drop_last());
        law_a_declaration_totals_its_parts(left, right.drop_last());
    }
}

} // verus!
