//! The color cache: 64 slots, each holding the pixel last stored under its hash.
//!
//! Two colors with the same hash evict one another. That is how the format
//! works: a fixed table looked up in constant time, at the price of a missed
//! match now and then.

use vstd::prelude::*;
use crate::pixel::{RGBA, default_pixel, spec_hash};

verus! {

/// The cache at the start of a pass: the default pixel in every slot.
pub open spec fn empty_cache() -> Seq<RGBA> {
    Seq::new(64, |i: int| default_pixel())
}

/// Each slot holds a pixel that hashes to it, or the default pixel.
pub open spec fn cache_wf(cache: Seq<RGBA>) -> bool {
    &&& cache.len() == 64
    &&& forall|i: int|
        0 <= i < 64 ==> #[trigger] cache[i] == default_pixel() || spec_hash(cache[i]) == i
}

/// The cache after `colors` were stored in an empty cache, one after the other.
pub open spec fn cache_after(colors: Seq<RGBA>) -> Seq<RGBA>
    decreases colors.len(),
{
    if colors.len() == 0 {
        empty_cache()
    } else {
        cache_after(colors.drop_last()).update(spec_hash(colors.last()), colors.last())
    }
}

/// Each slot holds the pixel stored last among those that hash to it, or the
/// default pixel where none was stored: `slot` holds the `k`-th pixel stored,
/// if that one hashes to it and none after it does.
pub proof fn lemma_cache_holds_latest(colors: Seq<RGBA>, slot: int, k: int)
    requires
        0 <= slot < 64,
    ensures
        cache_wf(cache_after(colors)),
        (forall|j: int| 0 <= j < colors.len() ==> spec_hash(#[trigger] colors[j]) != slot)
            ==> cache_after(colors)[slot] == default_pixel(),
        0 <= k < colors.len() && spec_hash(colors[k]) == slot && (forall|j: int|
            k < j < colors.len() ==> spec_hash(#[trigger] colors[j]) != slot) ==> cache_after(
            colors,
        )[slot] == colors[k],
    decreases colors.len(),
{
    if colors.len() > 0 {
        let earlier = colors.drop_last();
        lemma_cache_holds_latest(earlier, slot, k);
        assert forall|j: int| 0 <= j < earlier.len() implies earlier[j] == colors[j] by {}
    }
}

/// The colors seen lately, one per hash bucket.
#[derive(Debug, Clone, Copy)]
pub struct Encountered(pub [RGBA; 64]);

impl View for Encountered {
    type V = Seq<RGBA>;

    open spec fn view(&self) -> Seq<RGBA> {
        self.0@
    }
}

impl Encountered {
    /// The invariant of the cache: see [`cache_wf`].
    pub open spec fn wf(&self) -> bool {
        cache_wf(self@)
    }

    /// A cache with the default pixel in every slot.
    pub fn new() -> (cache: Self)
        ensures
            cache@ == empty_cache(),
            cache.wf(),
    {
        let cache = Self([RGBA::new();64]);
        assert(cache@ =~= empty_cache());
        cache
    }

    /// Whether the slot of `color` holds `color`.
    pub fn contains(&self, color: &RGBA) -> (hit: bool)
        ensures
            hit == (self@[spec_hash(*color)] == *color),
    {
        let index = color.hash() as usize;
        self.0[index] == *color
    }

    /// The pixel in slot `index`.
    pub fn get(&self, index: u8) -> (color: RGBA)
        requires
            index < 64,
        ensures
            color == self@[index as int],
    {
        self.0[index as usize]
    }

    /// Puts `color` into its slot, over whatever was there.
    pub fn set(&mut self, color: &RGBA)
        ensures
            final(self)@ == old(self)@.update(spec_hash(*color), *color),
            old(self).wf() ==> final(self).wf(),
    {
        let index = color.hash() as usize;
        self.0[index] = *color;
    }
}

} // verus!
