//! The block windows that a discovery queries, one after another.

use vstd::prelude::*;

verus! {

/// The inclusive windows `[from, min(from + step - 1, head)]` that a scan
/// starting at `from` queries: each starts `step` after the one before, and
/// the scan stops once a start reaches `head`.
pub open spec fn windows_from(from: int, step: int, head: int) -> Seq<(int, int)>
    decreases (if from < head {
        head - from
    } else {
        0
    }),
{
    if step <= 0 || from >= head {
        Seq::empty()
    } else {
        let to = if from + step - 1 <= head {
            from + step - 1
        } else {
            head
        };
        seq![(from, to)] + windows_from(from + step, step, head)
    }
}

/// Hands out the windows of a scan of blocks `0..=head` in `step`-sized
/// windows, lowest first.
pub struct BlockRangeScanner {
    head: u64,
    step: u64,
    from: u64,
}

impl BlockRangeScanner {
    /// Well formed: the window width is positive.
    pub closed spec fn wf(&self) -> bool {
        &&& self.step > 0
        &&& self.from <= self.head
    }

    /// The windows not handed out yet.
    pub closed spec fn remaining(&self) -> Seq<(int, int)> {
        windows_from(self.from as int, self.step as int, self.head as int)
    }

    /// A scanner over the blocks up to `head`.
    pub fn new(head: u64, step: u64) -> (r: Self)
        requires
            step > 0,
        ensures
            r.wf(),
            r.remaining() == windows_from(0, step as int, head as int),
    {
        BlockRangeScanner { head, step, from: 0 }
    }

    /// A scanner with nothing left to hand out.
    pub fn exhausted() -> (r: Self)
        ensures
            r.wf(),
            r.remaining() == Seq::<(int, int)>::empty(),
    {
        BlockRangeScanner { head: 0, step: 1, from: 0 }
    }

    /// The next window, lowest first; `None` once all were handed out.
    pub fn next_window(&mut self) -> (r: Option<(u64, u64)>)
        requires
            old(self).wf(),
        ensures
            final(self).wf(),
            old(self).remaining().len() == 0 ==> r is None && final(self).remaining() == old(
                self,
            ).remaining(),
            old(self).remaining().len() > 0 ==> {
                &&& r matches Some(w)
                &&& (w.0 as int, w.1 as int) == old(self).remaining()[0]
                &&& final(self).remaining() == old(self).remaining().drop_first()
            },
    {
        if self.from >= self.head {
            return None;
        }
        let from = self.from;
        let to = if self.head - from <= self.step - 1 {
            self.head
        } else {
            from + (self.step - 1)
        };
        let ghost rest = windows_from(from + self.step, self.step as int, self.head as int);
        if self.head - from <= self.step {
            self.from = self.head;
            assert(rest =~= Seq::<(int, int)>::empty());
        } else {
            self.from = from + self.step;
        }
        assert(old(self).remaining().drop_first() =~= rest);
        Some((from, to))
    }
}

} // verus!
