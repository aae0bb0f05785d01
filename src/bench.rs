//! Time spent on the stages of processing, kept in nanoseconds.

use vstd::prelude::*;

verus! {

/// Durations of the stages of processing, in nanoseconds.
#[derive(Clone, Copy, Debug, PartialEq, Eq, Structural)]
pub struct Benchmark {
    pub total_time: u128,
    pub image_decode_time: u128,
    pub render_time: u128,
    pub cache_time: u128,
}

pub open spec fn sat_add(a: u128, b: u128) -> u128 {
    if a as int + b as int > u128::MAX { u128::MAX } else { (a + b) as u128 }
}

impl Benchmark {
    /// All durations zero.
    pub fn init() -> (r: Benchmark)
        ensures
            r == (Benchmark { total_time: 0, image_decode_time: 0, render_time: 0, cache_time: 0 }),
    {
        Benchmark { total_time: 0, image_decode_time: 0, render_time: 0, cache_time: 0 }
    }

    /// Adds the durations of one more frame, each sum saturating.
    pub fn add(&mut self, frame: &Benchmark)
        ensures
            final(self).total_time == sat_add(old(self).total_time, frame.total_time),
            final(self).image_decode_time == sat_add(old(self).image_decode_time, frame.image_decode_time),
            final(self).render_time == sat_add(old(self).render_time, frame.render_time),
            final(self).cache_time == sat_add(old(self).cache_time, frame.cache_time),
    {
        self.total_time = self.total_time.saturating_add(frame.total_time);
        self.image_decode_time = self.image_decode_time.saturating_add(frame.image_decode_time);
        self.render_time = self.render_time.saturating_add(frame.render_time);
        self.cache_time = self.cache_time.saturating_add(frame.cache_time);
    }

    /// Turns the summed stage durations into averages over `total_frames`
    /// frames; the total stays a total.
    pub fn average(&mut self, total_frames: u32)
        requires
            total_frames > 0,
        ensures
            final(self).total_time == old(self).total_time,
            final(self).image_decode_time == old(self).image_decode_time / total_frames as u128,
            final(self).render_time == old(self).render_time / total_frames as u128,
            final(self).cache_time == old(self).cache_time / total_frames as u128,
    {
        let n = total_frames as u128;
        self.image_decode_time = self.image_decode_time / n;
        self.render_time = self.render_time / n;
        self.cache_time = self.cache_time / n;
    }
}

} // verus!
