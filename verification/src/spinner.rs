//! Frame-stepping spinners for the UI's running markers.

use vstd::prelude::*;

verus! {

/// The braille frames of the task-row spinner.
pub const BRAILE: &'static str = "\u{28e7}\u{28cf}\u{285f}\u{283f}\u{28bb}\u{28f9}\u{28fc}\u{28f6}";

/// The arrow frames of the state-list spinner.
pub const ARROW: &'static str = "\u{25b9}\u{25b8}\u{25b9}\u{25b9}\u{25b9}";

/// A cyclic cursor over the frames of an animation: one character per
/// frame.
#[derive(Clone, Copy, Debug)]
pub struct Spinner {
    pub chars: &'static str,
    pub current: usize,
}

impl Spinner {
    /// A well-formed spinner points at one of its frames.
    pub open spec fn wf(self) -> bool {
        self.chars@.len() > 0 && self.current < self.chars@.len()
    }

    /// A spinner over the given frames, starting at the first.
    pub fn new(chars: &'static str) -> (r: Spinner)
        requires
            chars@.len() > 0,
        ensures
            r.chars == chars,
            r.current == 0,
            r.wf(),
    {
        Spinner { chars, current: 0 }
    }

    /// Step to the next frame, wrapping around.
    pub fn next(&mut self)
        ensures
            final(self).chars == old(self).chars,
            old(self).chars@.len() > 0 ==> final(self).wf(),
            old(self).wf() ==> final(self).current == (old(self).current + 1) % (old(
                self,
            ).chars@.len() as int),
            old(self).chars@.len() == 0 ==> final(self).current == old(self).current,
    {
        let n = self.chars.unicode_len();
        if n == 0 {
            return;
        }
        let next_frame: usize = if self.current >= n - 1 {
            0
        } else {
            self.current + 1
        };
        proof {
            let cur = old(self).current as int;
            let m = n as int;
            if old(self).wf() {
                if cur + 1 == m {
                    assert(m % m == 0) by (nonlinear_arith)
                        requires m > 0;
                } else {
                    assert((cur + 1) % m == cur + 1) by (nonlinear_arith)
                        requires 0 <= cur + 1 < m;
                }
            }
        }
        self.current = next_frame;
    }

    /// The frame under the cursor, or nothing when the cursor is astray.
    pub fn current(&self) -> (r: &str)
        ensures
            self.wf() ==> r@ == self.chars@.subrange(self.current as int, self.current + 1),
            !self.wf() ==> r@.len() == 0,
    {
        let n = self.chars.unicode_len();
        if self.current < n {
            self.chars.substring_char(self.current, self.current + 1)
        } else {
            proof {
                reveal_strlit("");
            }
            ""
        }
    }
}

} // verus!
