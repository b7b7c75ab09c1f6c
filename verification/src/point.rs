use vstd::prelude::*;

verus! {

/// One timestamped record: the atomic unit of a timeline.
///
/// All quantities are plain fixed-point integers: `time` is in
/// micro-units of a second, `vel` is in millionths of full velocity,
/// `note` is a note number, and `id` is an opaque correlation tag that
/// need not be unique. A point is a zero-duration event, so its end
/// time equals its time.
#[derive(Clone, Copy, PartialEq, Eq, Structural, Debug)]
pub struct Point {
    pub id: u64,
    pub time: i64,
    pub note: i64,
    pub vel: i64,
}

/// A timeline: an ordered sequence of points for one named track.
/// Order is append order, not automatically chronological; chronological
/// order is an invariant only after an explicit sort or merge.
pub type Floww = Vec<Point>;

/// Capability of a point-like record: the timeline algebra only reads a
/// record's time, moves it, and scales it, never its other payload.
pub trait Timed: Sized {
    /// The record's timestamp, as contracts see it.
    spec fn spec_time(&self) -> i64;

    /// The record's end time, as contracts see it.
    spec fn spec_end(&self) -> i64;

    /// The same record with its timestamp replaced and all else kept.
    spec fn spec_with_time(&self, t: i64) -> Self;

    /// Whether scaling the record's time by `factor` stays representable.
    spec fn spec_scale_ok(&self, factor: i64) -> bool;

    /// The record with its time multiplied by `factor` and all else kept.
    spec fn spec_scaled(&self, factor: i64) -> Self;

    fn time(&self) -> (t: i64)
        ensures
            t == self.spec_time(),
    ;

    fn end(&self) -> (t: i64)
        ensures
            t == self.spec_end(),
    ;

    fn set_time(&mut self, t: i64)
        ensures
            *final(self) == old(self).spec_with_time(t),
    ;

    fn scale(&mut self, factor: i64)
        requires
            old(self).spec_scale_ok(factor),
        ensures
            *final(self) == old(self).spec_scaled(factor),
    ;
}

impl Timed for Point {
    open spec fn spec_time(&self) -> i64 {
        self.time
    }

    open spec fn spec_end(&self) -> i64 {
        self.time
    }

    open spec fn spec_with_time(&self, t: i64) -> Point {
        Point { time: t, ..*self }
    }

    open spec fn spec_scale_ok(&self, factor: i64) -> bool {
        i64::MIN <= self.time * factor <= i64::MAX
    }

    open spec fn spec_scaled(&self, factor: i64) -> Point {
        Point { time: (self.time * factor) as i64, ..*self }
    }

    fn time(&self) -> i64 {
        self.time
    }

    fn end(&self) -> i64 {
        self.time
    }

    fn set_time(&mut self, t: i64) {
        self.time = t;
    }

    fn scale(&mut self, factor: i64) {
        let scaled: i128 = (self.time as i128) * (factor as i128);
        self.time = scaled as i64;
    }
}

} // verus!
