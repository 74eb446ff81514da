//! What the grid of a static-point filter holds after a history of hits
//! and advances.

use crate::bits::{
    fits_window, lemma_popcount_bound, lemma_popcount_set_bit, lemma_window_bits,
    lemma_window_masks, popcount,
};
use crate::static_point_filter::{
    activated, advanced, consistent, hits, initial, is_background, mask_of, voxel_at, window_of,
    Fraction, GridState,
};
use crate::voxel_map::flushed;
use vstd::prelude::*;

verus! {

/// One thing that happens to a filter.
pub enum Event {
    /// A point of the voxel with this key is checked.
    Hit((u64, u64, u64)),
    /// The window ends.
    Advance,
}

/// The grid of a new filter after the events, in order.
pub open spec fn run(events: Seq<Event>) -> GridState
    decreases events.len(),
{
    if events.len() == 0 {
        initial()
    } else {
        match events.last() {
            Event::Hit(key) => activated(run(events.drop_last()), key),
            Event::Advance => advanced(run(events.drop_last())),
        }
    }
}

/// The number of advances among the events.
pub open spec fn advances(events: Seq<Event>) -> nat
    decreases events.len(),
{
    if events.len() == 0 {
        0
    } else {
        match events.last() {
            Event::Hit(_) => advances(events.drop_last()),
            Event::Advance => advances(events.drop_last()) + 1,
        }
    }
}

/// Whether the voxel was hit since the last advance.
pub open spec fn hit_in_window(events: Seq<Event>, key: (u64, u64, u64)) -> bool
    decreases events.len(),
{
    if events.len() == 0 {
        false
    } else {
        match events.last() {
            Event::Hit(other) => other == key || hit_in_window(events.drop_last(), key),
            Event::Advance => false,
        }
    }
}

/// The number of windows in which the voxel was hit: of pairs of this
/// voxel and a window with at least one hit of the voxel in the window.
pub open spec fn windows_hit(events: Seq<Event>, key: (u64, u64, u64)) -> nat
    decreases events.len(),
{
    if events.len() == 0 {
        0
    } else {
        match events.last() {
            Event::Hit(other) => windows_hit(events.drop_last(), key) + (if other == key
                && !hit_in_window(events.drop_last(), key) {
                1nat
            } else {
                0nat
            }),
            Event::Advance => windows_hit(events.drop_last(), key),
        }
    }
}

/// Two checks of one voxel in one window leave the grid as one check
/// does, and give the same answer.
pub proof fn lemma_check_twice(state: GridState, key: (u64, u64, u64), share: Fraction)
    ensures
        activated(activated(state, key), key) == activated(state, key),
        is_background(activated(state, key), key, share) == is_background(state, key, share),
{
    let bits = voxel_at(state, key).0;
    let mask = mask_of(state.step);
    assert((bits | mask) | mask == bits | mask) by (bit_vector);
    let once = activated(state, key);
    assert(voxel_at(once, key) == (bits | mask, voxel_at(state, key).1));
    assert(activated(once, key).voxels =~= once.voxels);
}

/// Before the first advance every checked point is background, whatever
/// the share.
pub proof fn lemma_first_window_is_background(
    state: GridState,
    key: (u64, u64, u64),
    share: Fraction,
)
    requires
        state.step == 0,
        share.denominator > 0,
    ensures
        is_background(state, key, share),
{
    let d = share.denominator as int;
    assert((0 * (share.numerator as int) + d - 1) / d == 0) by (nonlinear_arith)
        requires
            d > 0,
    ;
}

/// After any history of fewer than 2^64 advances the grid is consistent,
/// it has counted the advances, each voxel's hits are the number of
/// windows in which it was hit, and the current window's bit of a voxel
/// tells whether it was hit in this window.
pub proof fn lemma_history(events: Seq<Event>)
    requires
        advances(events) <= u64::MAX,
    ensures
        run(events).step == advances(events),
        consistent(run(events)),
        forall|key: (u64, u64, u64)| #[trigger]
            hits(voxel_at(run(events), key)) == windows_hit(events, key),
        forall|key: (u64, u64, u64)|
            (voxel_at(run(events), key).0 & mask_of(run(events).step) != 0) == #[trigger] hit_in_window(
                events,
                key,
            ),
    decreases events.len(),
{
    let after = run(events);
    if events.len() == 0 {
        assert forall|key: (u64, u64, u64)|
            hits(voxel_at(after, key)) == 0 && voxel_at(after, key).0 & mask_of(0) == 0 by {
            assert(voxel_at(after, key) == (0u64, 0u64));
            assert(0u64 & mask_of(0) == 0) by {
                let m = mask_of(0);
                assert(0u64 & m == 0) by (bit_vector);
            }
        }
    } else {
        let earlier = events.drop_last();
        let before = run(earlier);
        lemma_history(earlier);
        let window = window_of(before.step);
        let mask = mask_of(before.step);
        lemma_window_masks(window);
        match events.last() {
            Event::Hit(hit) => {
                let voxel = voxel_at(before, hit);
                assert(fits_window(voxel.0, window));
                lemma_window_bits(voxel.0, window);
                if voxel.0 & mask == 0 {
                    lemma_popcount_set_bit(voxel.0, window);
                }
                assert(hit_in_window(earlier, hit) == (voxel.0 & mask != 0));
                assert(hits(voxel) == windows_hit(earlier, hit));
                assert forall|key: (u64, u64, u64)|
                    hits(voxel_at(after, key)) == windows_hit(events, key) && (voxel_at(
                        after,
                        key,
                    ).0 & mask != 0) == hit_in_window(events, key) by {
                    if key == hit {
                        assert(voxel_at(after, key) == (voxel.0 | mask, voxel.1));
                    } else {
                        assert(voxel_at(after, key) == voxel_at(before, key));
                        assert(hits(voxel_at(before, key)) == windows_hit(earlier, key));
                        assert(hit_in_window(earlier, key) == (voxel_at(before, key).0 & mask
                            != 0));
                    }
                }
                assert forall|key: (u64, u64, u64)| #[trigger]
                    after.voxels.contains_key(key) implies fits_window(
                    after.voxels[key].0,
                    window,
                ) && after.voxels[key].1 + window <= after.step by {
                    if key != hit {
                        assert(before.voxels.contains_key(key));
                    }
                }
            },
            Event::Advance => {
                let next = window_of(after.step);
                let next_mask = mask_of(after.step);
                assert(after.step == before.step + 1);
                assert(after.step <= u64::MAX);
                if (before.step + 1) % 64 == 0 {
                    lemma_window_masks(0);
                }
                assert forall|key: (u64, u64, u64)|
                    #![trigger voxel_at(after, key)]
                    hits(voxel_at(after, key)) == windows_hit(events, key) && voxel_at(
                        after,
                        key,
                    ).0 & next_mask == 0 && fits_window(voxel_at(after, key).0, next)
                        && voxel_at(after, key).1 + next <= after.step by {
                    let voxel = voxel_at(before, key);
                    assert(hits(voxel) == windows_hit(earlier, key));
                    assert(fits_window(voxel.0, window));
                    assert(voxel.1 + window <= before.step);
                    lemma_popcount_bound(voxel.0, window);
                    assert(0u64 & next_mask == 0) by (bit_vector);
                    if (before.step + 1) % 64 == 0 {
                        assert(window == 63);
                        assert(next == 0);
                        if before.voxels.contains_key(key) {
                            assert(after.voxels.contains_key(key));
                            assert(after.voxels[key] == flushed(before.voxels[key]));
                        } else {
                            assert(!after.voxels.contains_key(key));
                        }
                        assert(popcount(0) == 0);
                    } else {
                        assert(next == window + 1);
                        lemma_window_bits(voxel.0, window);
                        assert(voxel_at(after, key) == voxel);
                    }
                }
                assert forall|key: (u64, u64, u64)| #[trigger]
                    after.voxels.contains_key(key) implies fits_window(
                    after.voxels[key].0,
                    next,
                ) && after.voxels[key].1 + next <= after.step by {
                    assert(voxel_at(after, key) == after.voxels[key]);
                }
                assert forall|key: (u64, u64, u64)| #[trigger]
                    hits(voxel_at(after, key)) == windows_hit(events, key) by {
                    assert(voxel_at(after, key) == voxel_at(after, key));
                }
                assert forall|key: (u64, u64, u64)|
                    (voxel_at(after, key).0 & next_mask != 0) == #[trigger] hit_in_window(
                        events,
                        key,
                    ) by {
                    assert(voxel_at(after, key) == voxel_at(after, key));
                }
            },
        }
    }
}

/// Right after an advance that completes a block of 64 windows, each
/// voxel's window word is empty and its count is the number of windows in
/// which it was hit.
pub proof fn lemma_flush_counts_hits(events: Seq<Event>, key: (u64, u64, u64))
    requires
        events.len() > 0,
        events.last() == Event::Advance,
        advances(events) % 64 == 0,
        advances(events) <= u64::MAX,
    ensures
        voxel_at(run(events), key).0 == 0,
        voxel_at(run(events), key).1 == windows_hit(events, key),
{
    lemma_history(events);
    lemma_history(events.drop_last());
    let before = run(events.drop_last());
    let after = run(events);
    assert(hits(voxel_at(after, key)) == windows_hit(events, key));
    if before.voxels.contains_key(key) {
        assert(after.voxels[key] == flushed(before.voxels[key]));
    } else {
        assert(!after.voxels.contains_key(key));
    }
    assert(popcount(0) == 0);
}

/// The counts of the listed voxels, added up.
pub open spec fn counts_sum(state: GridState, keys: Seq<(u64, u64, u64)>) -> nat
    decreases keys.len(),
{
    if keys.len() == 0 {
        0
    } else {
        counts_sum(state, keys.drop_last()) + voxel_at(state, keys.last()).1 as nat
    }
}

/// The number of pairs of a listed voxel and a window in which it was hit.
pub open spec fn windows_hit_sum(events: Seq<Event>, keys: Seq<(u64, u64, u64)>) -> nat
    decreases keys.len(),
{
    if keys.len() == 0 {
        0
    } else {
        windows_hit_sum(events, keys.drop_last()) + windows_hit(events, keys.last())
    }
}

/// Right after an advance that completes a block of 64 windows, the
/// counts of any voxels add up to the number of pairs of one of these
/// voxels and a window in which it was hit.
pub proof fn lemma_flush_sums_hits(events: Seq<Event>, keys: Seq<(u64, u64, u64)>)
    requires
        events.len() > 0,
        events.last() == Event::Advance,
        advances(events) % 64 == 0,
        advances(events) <= u64::MAX,
    ensures
        counts_sum(run(events), keys) == windows_hit_sum(events, keys),
    decreases keys.len(),
{
    if keys.len() > 0 {
        lemma_flush_sums_hits(events, keys.drop_last());
        lemma_flush_counts_hits(events, keys.last());
    }
}

} // verus!
