//! The running state of a pass, and the two ways a pixel changes it.
//!
//! Encoder and decoder keep the same state, the color cache and the previous
//! pixel, and change it by the same two rules. Both take the rules from here,
//! so that the two can never drift apart.

use vstd::prelude::*;
use crate::cache::{Encountered, empty_cache};
use crate::pixel::{RGBA, default_pixel, spec_hash};

verus! {

/// The state between two pixels: the cache and the pixel seen last.
pub struct State {
    pub cache: Seq<RGBA>,
    pub prev: RGBA,
}

impl State {
    /// The state at the start of a pass.
    pub open spec fn start() -> State {
        State { cache: empty_cache(), prev: default_pixel() }
    }

    /// Whether the cache holds `color` in its slot.
    pub open spec fn holds(self, color: RGBA) -> bool {
        self.cache[spec_hash(color)] == color
    }

    /// The state after a pixel that was found in the cache: the cache stays as
    /// it is.
    pub open spec fn recall(self, color: RGBA) -> State {
        State { cache: self.cache, prev: color }
    }

    /// The state after a pixel that was not taken from the cache: it is stored
    /// in its slot.
    pub open spec fn store(self, color: RGBA) -> State {
        State { cache: self.cache.update(spec_hash(color), color), prev: color }
    }
}

/// The state of a pass as the codec holds it.
#[derive(Debug, Clone, Copy)]
pub struct CodecState {
    pub encountered: Encountered,
    pub previous: RGBA,
}

impl View for CodecState {
    type V = State;

    open spec fn view(&self) -> State {
        State { cache: self.encountered@, prev: self.previous }
    }
}

impl CodecState {
    /// The cache keeps its invariant.
    pub open spec fn wf(&self) -> bool {
        self.encountered.wf()
    }

    /// The state at the start of a pass: an empty cache, and the default pixel
    /// as the previous one.
    pub fn new() -> (state: Self)
        ensures
            state@ == State::start(),
            state.wf(),
    {
        Self { encountered: Encountered::new(), previous: RGBA::new() }
    }

    /// Takes note of a pixel that the cache already holds.
    pub fn recall(&mut self, color: &RGBA)
        ensures
            final(self)@ == old(self)@.recall(*color),
            old(self).wf() ==> final(self).wf(),
    {
        self.previous = *color;
    }

    /// Takes note of any other pixel, and stores it in the cache.
    pub fn store(&mut self, color: &RGBA)
        ensures
            final(self)@ == old(self)@.store(*color),
            old(self).wf() ==> final(self).wf(),
    {
        self.encountered.set(color);
        self.previous = *color;
    }
}

} // verus!
