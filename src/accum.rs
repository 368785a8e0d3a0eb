//! Running accumulators of absolute differences between consecutive samples.
use vstd::prelude::*;

verus! {

/// Largest sum of differences that one accumulator can hold: at most 255 per
/// sample over at most `u32::MAX` samples.
pub const DIFFSUM_MAX: u64 = 1095216660225;

/// Absolute difference of two signed bytes.
pub open spec fn abs_diff(a: i8, b: i8) -> int {
    if a >= b {
        a - b
    } else {
        b - a
    }
}

/// Running count and sum of absolute differences between consecutive samples
/// fed into one byte slot.
#[derive(Clone, Copy, Debug, PartialEq, Eq, Structural)]
pub struct Avg {
    pub diffsum: u64,
    pub count: u32,
    pub last: i8,
    pub debug: bool,
}

impl Avg {
    /// The sum can never exceed 255 per counted sample.
    pub open spec fn wf(&self) -> bool {
        self.diffsum <= 255 * self.count
    }

    /// The accumulator after one more sample: the first sample only sets
    /// `last`; every later one adds its distance from the previous sample.
    pub open spec fn added(self, value: i8) -> Avg {
        Avg {
            diffsum: if self.count > 0 {
                (self.diffsum + abs_diff(value, self.last)) as u64
            } else {
                self.diffsum
            },
            count: (self.count + 1) as u32,
            last: value,
            debug: self.debug,
        }
    }

    pub open spec fn is_empty(&self) -> bool {
        self.diffsum == 0 && self.count == 0 && self.last == 0
    }

    pub fn new() -> (r: Avg)
        ensures
            r.is_empty(),
            !r.debug,
            r.wf(),
    {
        Avg { diffsum: 0, count: 0, last: 0, debug: false }
    }

    /// An empty accumulator marked for tracing by its caller.
    pub fn _newd() -> (r: Avg)
        ensures
            r.is_empty(),
            r.debug,
            r.wf(),
    {
        Avg { diffsum: 0, count: 0, last: 0, debug: true }
    }

    pub fn add(&mut self, value: i8)
        requires
            old(self).wf(),
            old(self).count < u32::MAX,
        ensures
            *final(self) == old(self).added(value),
            final(self).wf(),
    {
        if self.count > 0 {
            let d: i64 = value as i64 - self.last as i64;
            let a: u64 = if d < 0 {
                (-d) as u64
            } else {
                d as u64
            };
            assert(a == abs_diff(value, self.last));
            self.diffsum = self.diffsum + a;
        }
        self.count = self.count + 1;
        self.last = value;
    }
}

/// A pair of accumulators fed in step, one for each stereo channel.
#[derive(Clone, Copy, Debug, PartialEq, Eq, Structural)]
pub struct Avg2 {
    pub l: Avg,
    pub r: Avg,
}

impl Avg2 {
    pub open spec fn wf(&self) -> bool {
        self.l.wf() && self.r.wf() && self.l.count == self.r.count
    }

    pub open spec fn added(self, l: i8, r: i8) -> Avg2 {
        Avg2 { l: self.l.added(l), r: self.r.added(r) }
    }

    pub open spec fn is_empty(&self) -> bool {
        self.l.is_empty() && self.r.is_empty()
    }

    pub fn new() -> (r: Avg2)
        ensures
            r.is_empty(),
            !r.l.debug && !r.r.debug,
            r.wf(),
    {
        Avg2 { l: Avg::new(), r: Avg::new() }
    }

    /// An empty pair marked for tracing by its caller.
    pub fn _newd() -> (r: Avg2)
        ensures
            r.is_empty(),
            r.l.debug && r.r.debug,
            r.wf(),
    {
        Avg2 { l: Avg::_newd(), r: Avg::_newd() }
    }

    pub fn add(&mut self, l: i8, r: i8)
        requires
            old(self).wf(),
            old(self).l.count < u32::MAX,
        ensures
            *final(self) == old(self).added(l, r),
            final(self).wf(),
    {
        self.l.add(l);
        self.r.add(r);
    }
}

} // verus!
