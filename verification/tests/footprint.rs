//! What a declaration's footprint comes to.
use vm_effects::address::{Address, AddressClass};
use vm_effects::effect::{Effect, EffectTarget, Mode, ModeKind, Moves};
use vm_effects::footprint::{
    compatible, depth_units, effect_units, footprint, mode_weight, order_bits, span_units,
    DEPTH_UNITS, EXCLUSIVITY_FLOOR, SCAN_SEEK_ENTRIES,
};
use vm_effects::types::{CollectionId, LocalKey, SubstateKey};

const KINDS: [ModeKind; 5] = [
    ModeKind::Read,
    ModeKind::Delta,
    ModeKind::Credit,
    ModeKind::Reserve,
    ModeKind::Write,
];

/// The mode kinds `kind` cannot share a key with.
fn excluded(kind: ModeKind) -> Vec<ModeKind> {
    KINDS
        .into_iter()
        .filter(|other| !compatible(kind, *other))
        .collect()
}

fn owner() -> Address {
    Address::new([7; 31], AddressClass::Component)
}

fn point(byte: u8) -> EffectTarget {
    EffectTarget::Point(SubstateKey {
        owner: owner(),
        local: LocalKey([byte; 16]),
    })
}

fn capped(lo: u128, hi: u128, cap: u32) -> EffectTarget {
    EffectTarget::Range {
        owner: owner(),
        collection: CollectionId([4; 16]),
        lo,
        hi,
        cap,
    }
}

fn range(lo: u128, hi: u128) -> EffectTarget {
    capped(lo, hi, 8)
}

fn effect(target: EffectTarget, mode: Mode) -> Effect {
    Effect { target, mode }
}

const WRITE: Mode = Mode::Write { moves: Moves::Both };

#[test]
fn weight_respects_the_exclusion_ordering() {
    for narrow in KINDS {
        for wide in KINDS {
            let (narrow_set, wide_set) = (excluded(narrow), excluded(wide));
            if !narrow_set.iter().all(|kind| wide_set.contains(kind)) {
                continue;
            }
            assert!(
                mode_weight(narrow) <= mode_weight(wide),
                "{narrow:?} excludes a subset of {wide:?} but weighs more",
            );
            if wide_set.len() > narrow_set.len() {
                assert!(
                    mode_weight(narrow) < mode_weight(wide),
                    "{wide:?} excludes strictly more than {narrow:?} but weighs no more",
                );
            }
        }
    }
}

/// The schedule itself, kind by kind, so a re-price is a diff here rather
/// than an ordering that still happens to hold.
#[test]
fn every_kind_weighs_what_the_schedule_says() {
    let schedule = [
        (ModeKind::Read, 5),
        (ModeKind::Delta, 3),
        (ModeKind::Credit, 3),
        (ModeKind::Reserve, 3),
        (ModeKind::Write, 6),
    ];
    for (kind, weight) in schedule {
        assert_eq!(mode_weight(kind), weight, "{kind:?}");
    }
    assert_eq!(
        schedule.len(),
        KINDS.len(),
        "a kind the schedule does not price",
    );
}

#[test]
fn the_weight_ordering_is_the_lattice_ordering() {
    assert_eq!(mode_weight(ModeKind::Delta), mode_weight(ModeKind::Reserve));
    assert_eq!(mode_weight(ModeKind::Delta), mode_weight(ModeKind::Credit));
    assert!(mode_weight(ModeKind::Delta) > EXCLUSIVITY_FLOOR);
    assert!(mode_weight(ModeKind::Read) > mode_weight(ModeKind::Delta));
    assert!(mode_weight(ModeKind::Write) > mode_weight(ModeKind::Read));
}

#[test]
fn order_bits_span_the_whole_space() {
    assert_eq!(order_bits(5, 5), 0, "one key spans nothing");
    assert_eq!(order_bits(9, 4), 0, "an inverted interval names nothing");
    assert_eq!(order_bits(0, 1), 1);
    assert_eq!(order_bits(0, u128::MAX), 128);
}

#[test]
fn order_bits_are_the_digits_of_the_distance() {
    assert_eq!(order_bits(0, 2), 2);
    assert_eq!(order_bits(0, 3), 2);
    assert_eq!(order_bits(0, 4), 3);
    assert_eq!(order_bits(100, 200), 7);
    assert_eq!(order_bits(0, 1023), 10);
    assert_eq!(order_bits(0, 1024), 11);
    assert_eq!(order_bits(1, u128::MAX), 128);
    assert_eq!(order_bits(0, u128::MAX / 2), 127);
}

#[test]
fn a_full_space_range_costs_more_than_a_narrow_one() {
    let narrow = effect_units(effect(range(100, 200), WRITE));
    let full = effect_units(effect(range(0, u128::MAX), WRITE));
    assert!(full > narrow, "{full} should exceed {narrow}");
}

#[test]
fn a_degenerate_range_spans_what_its_point_spans() {
    assert_eq!(
        span_units(&range(42, 42)),
        span_units(&point(1)),
        "one key spans one leaf either way",
    );
    assert_eq!(
        effect_units(effect(range(42, 42), WRITE)) - depth_units(&range(42, 42)),
        effect_units(effect(point(1), WRITE)) - depth_units(&point(1)),
    );
}

/// A cap is execution work, and the price moves with it: two declarations
/// differing only in their cap price apart, by exactly the entries the
/// larger one may walk.
#[test]
fn two_declarations_differing_only_in_cap_price_apart() {
    let (small, large) = (
        effect_units(effect(capped(100, 200, 8), WRITE)),
        effect_units(effect(capped(100, 200, 64), WRITE)),
    );
    assert_eq!(large - small, DEPTH_UNITS * (64 - 8));
}

/// The two axes price different claims.
#[test]
fn span_prices_exclusion_and_depth_prices_the_walk() {
    let wide_shallow = capped(0, u128::MAX, 1);
    let narrow_deep = capped(100, 200, 1024);
    assert!(span_units(&wide_shallow) > span_units(&narrow_deep));
    assert!(depth_units(&narrow_deep) > depth_units(&wide_shallow));
}

/// An empty page is not free: the seek floor is charged before any entry.
#[test]
fn a_scan_charges_its_seek_before_any_entry() {
    assert_eq!(
        depth_units(&range(100, 200)) - DEPTH_UNITS * 8,
        DEPTH_UNITS * SCAN_SEEK_ENTRIES as u64,
        "the fixture's cap of 8 rides above the seek floor",
    );
}

#[test]
fn a_set_totals_its_effects() {
    let declared = vec![
        effect(point(1), WRITE),
        effect(range(0, 1023), Mode::Read),
    ];
    assert_eq!(
        footprint(&declared),
        effect_units(effect(point(1), WRITE)) + effect_units(effect(range(0, 1023), Mode::Read)),
    );
}

#[test]
fn units_are_the_span_by_the_weight_and_the_depth() {
    // One leaf, excluding everything, walking one entry.
    assert_eq!(effect_units(effect(point(1), WRITE)), 6 + 1);
    // One leaf of ten bits more, under a read, walking twelve entries.
    assert_eq!(effect_units(effect(range(0, 1023), Mode::Read)), 11 * 5 + 12);
    // A credit conflicts as a delta does, and a reservation too.
    for mode in [
        Mode::Delta { moves: Moves::In },
        Mode::Delta { moves: Moves::Out },
        Mode::Delta { moves: Moves::Both },
        Mode::Reserve(9),
    ] {
        assert_eq!(effect_units(effect(point(1), mode)), 3 + 1);
    }
    let entry = EffectTarget::Entry {
        owner: owner(),
        collection: CollectionId([4; 16]),
        order: 3,
    };
    assert_eq!(effect_units(effect(entry, WRITE)), 7);
    assert_eq!(
        effect_units(effect(capped(0, u128::MAX, u32::MAX), WRITE)),
        129 * 6 + 4 + u64::from(u32::MAX),
    );
    assert_eq!(footprint(&vec![]), 0);
}

#[test]
fn sharing_a_key_goes_both_ways() {
    for left in KINDS {
        for right in KINDS {
            assert_eq!(compatible(left, right), compatible(right, left));
        }
    }
    assert!(compatible(ModeKind::Read, ModeKind::Read));
    assert!(!compatible(ModeKind::Write, ModeKind::Write));
    assert!(compatible(ModeKind::Credit, ModeKind::Reserve));
}
