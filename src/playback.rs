//! Playback decisions: which frame to show next, whether to wait after it,
//! and when to stop. The caller prints, sleeps and asks again.

use vstd::prelude::*;
use crate::codec::{AsciiFrame, lines_text};
use crate::term::{goto, goto_spec, clear_all, clear_all_spec};

verus! {

/// What the player does next.
#[derive(Clone, Copy, Debug, PartialEq, Eq, Structural)]
pub enum PlayStep {
    /// Print frame `index`, then wait one frame delay if `wait` holds.
    Show { index: usize, wait: bool },
    /// Playback is over.
    Stop,
}

/// Position in the cycle of frames of a cache file. A still image is shown
/// once; a video repeats without end.
#[derive(Clone, Copy, Debug, PartialEq, Eq, Structural)]
pub struct Playback {
    pub frame_count: usize,
    pub is_image: bool,
    pub next: usize,
    pub done: bool,
}

impl Playback {
    pub open spec fn wf(&self) -> bool {
        self.frame_count > 0 && self.next < self.frame_count
    }

    /// The state after one step, and the step.
    pub open spec fn step_spec(self) -> (Playback, PlayStep) {
        if self.done {
            (self, PlayStep::Stop)
        } else {
            let last = self.next + 1 == self.frame_count;
            let wait = !(last && self.is_image);
            let after = if last {
                Playback { next: 0, done: self.is_image, ..self }
            } else {
                Playback { next: (self.next + 1) as usize, ..self }
            };
            (after, PlayStep::Show { index: self.next, wait })
        }
    }

    /// The state after `n` steps.
    pub open spec fn run(self, n: nat) -> Playback
        decreases n,
    {
        if n == 0 { self } else { self.run((n - 1) as nat).step_spec().0 }
    }

    /// Starts at the first of `frame_count` frames.
    pub fn new(frame_count: usize, is_image: bool) -> (r: Playback)
        requires
            frame_count > 0,
        ensures
            r.wf(),
            r == (Playback { frame_count, is_image, next: 0, done: false }),
    {
        Playback { frame_count, is_image, next: 0, done: false }
    }

    /// Decides the next step and advances.
    pub fn step(&mut self) -> (r: PlayStep)
        requires
            old(self).wf(),
        ensures
            final(self).wf(),
            (*final(self), r) == old(self).step_spec(),
    {
        if self.done {
            return PlayStep::Stop;
        }
        let index = self.next;
        let last = self.next + 1 == self.frame_count;
        let wait = !(last && self.is_image);
        if last {
            self.next = 0;
            self.done = self.is_image;
        } else {
            self.next = self.next + 1;
        }
        PlayStep::Show { index, wait }
    }
}

/// A still image shows each of its frames once, in order, the last one
/// with no wait after it, and then stops for good.
pub proof fn lemma_still_plays_once(frame_count: usize, n: nat)
    requires
        frame_count > 0,
    ensures
        ({
            let p = Playback { frame_count, is_image: true, next: 0, done: false };
            &&& n < frame_count ==> p.run(n).step_spec().1
                == (PlayStep::Show { index: n as usize, wait: n + 1 != frame_count })
            &&& n >= frame_count ==> p.run(n).step_spec().1 == PlayStep::Stop
        }),
{
    lemma_still_state(frame_count, n);
}

proof fn lemma_still_state(frame_count: usize, n: nat)
    requires
        frame_count > 0,
    ensures
        ({
            let p = Playback { frame_count, is_image: true, next: 0, done: false };
            &&& n < frame_count ==> p.run(n) == Playback { next: n as usize, ..p }
            &&& n >= frame_count ==> p.run(n) == Playback { next: 0, done: true, ..p }
        }),
    decreases n,
{
    if n > 0 {
        lemma_still_state(frame_count, (n - 1) as nat);
    }
}

/// A video never stops: after any number of steps it shows frame
/// `n % frame_count`, and waits after it.
pub proof fn lemma_video_loops(frame_count: usize, n: nat)
    requires
        frame_count > 0,
    ensures
        ({
            let p = Playback { frame_count, is_image: false, next: 0, done: false };
            p.run(n).step_spec().1 == (PlayStep::Show { index: (n % frame_count as nat) as usize, wait: true })
        }),
{
    lemma_video_state(frame_count, n);
}

proof fn lemma_video_state(frame_count: usize, n: nat)
    requires
        frame_count > 0,
    ensures
        ({
            let p = Playback { frame_count, is_image: false, next: 0, done: false };
            p.run(n) == Playback { next: (n % frame_count as nat) as usize, ..p }
        }),
    decreases n,
{
    if n > 0 {
        lemma_video_state(frame_count, (n - 1) as nat);
        let m = (n - 1) as nat;
        let k = frame_count as nat;
        vstd::arithmetic::div_mod::lemma_fundamental_div_mod(m as int, k as int);
        let q = m as int / k as int;
        let r = m as int % k as int;
        if r + 1 == k {
            assert(n as int == (q + 1) * k + 0) by (nonlinear_arith)
                requires m as int == k * q + r, r + 1 == k, n == m + 1;
            vstd::arithmetic::div_mod::lemma_fundamental_div_mod_converse(n as int, k as int, q + 1, 0);
        } else {
            assert(n as int == q * k + (r + 1)) by (nonlinear_arith)
                requires m as int == k * q + r, n == m + 1;
            vstd::arithmetic::div_mod::lemma_fundamental_div_mod_converse(n as int, k as int, q, r + 1);
        }
    } else {
        vstd::arithmetic::div_mod::lemma_fundamental_div_mod_converse(0, frame_count as int, 0, 0);
    }
}

/// What is printed before the first frame: the screen cleared and the
/// cursor at column 2, row 2.
pub fn intro_text() -> (r: String)
    ensures
        r@ == clear_all_spec() + goto_spec(2, 2),
{
    let mut s = clear_all();
    let g = goto(2, 2);
    s.append(g.as_str());
    s
}

/// What is printed for one frame: the cursor moved to the top left corner,
/// then the frame's rows.
pub fn frame_output(frame: &AsciiFrame) -> (r: String)
    ensures
        r@ == goto_spec(1, 1) + lines_text(frame@),
{
    let mut s = goto(1, 1);
    let t = frame.text();
    s.append(t.as_str());
    s
}

} // verus!
