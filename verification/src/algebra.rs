use vstd::multiset::Multiset;
use vstd::prelude::*;

use crate::point::{Point, Timed};

verus! {

/// The shift that `shift_time` actually applies: the requested `t`,
/// clamped so that the first point in sequence order never ends up
/// before time zero, i.e. `max(t, -first_time)`.
pub open spec fn clamped_shift(s: Seq<Point>, t: i64) -> int
    recommends
        s.len() > 0,
{
    if t >= -(s[0].time as int) {
        t as int
    } else {
        -(s[0].time as int)
    }
}

/// Every point of `s` moved by `sh`; all other fields kept.
pub open spec fn shifted_points(s: Seq<Point>, sh: int) -> Seq<Point> {
    Seq::new(s.len(), |i: int| Point { time: (s[i].time + sh) as i64, ..s[i] })
}

/// Whether moving every time of `s` by `sh` stays representable.
pub open spec fn shift_fits(s: Seq<Point>, sh: int) -> bool {
    forall|i: int| 0 <= i < s.len() ==> i64::MIN <= #[trigger] s[i].time + sh <= i64::MAX
}

/// Every point of `s` with its time multiplied by `factor`.
pub open spec fn scaled_points(s: Seq<Point>, factor: i64) -> Seq<Point> {
    Seq::new(s.len(), |i: int| s[i].spec_scaled(factor))
}

/// Whether scaling every time of `s` by `factor` stays representable.
pub open spec fn scale_fits(s: Seq<Point>, factor: i64) -> bool {
    forall|i: int| 0 <= i < s.len() ==> s[i].spec_scale_ok(factor)
}

/// Stable insertion of `p` into `s` from the right: `p` lands after
/// every element whose time is less than or equal to its own, so equal
/// times keep their relative order.
pub open spec fn insert_by_time(s: Seq<Point>, p: Point) -> Seq<Point>
    decreases s.len(),
{
    if s.len() == 0 {
        seq![p]
    } else if p.time < s.last().time {
        insert_by_time(s.drop_last(), p).push(s.last())
    } else {
        s.push(p)
    }
}

/// Stable insertion sort, ascending by time. This is the documented
/// tie-break rule of the whole algebra: points with equal times keep
/// their original relative order.
pub open spec fn sort_by_time(s: Seq<Point>) -> Seq<Point>
    decreases s.len(),
{
    if s.len() == 0 {
        Seq::empty()
    } else {
        insert_by_time(sort_by_time(s.drop_last()), s.last())
    }
}

/// Non-decreasing by time.
pub open spec fn time_sorted(s: Seq<Point>) -> bool {
    forall|i: int, j: int| 0 <= i <= j < s.len() ==> s[i].time <= s[j].time
}

/// The result of fusing `b` onto the end of `a`: `b` shifted by the end
/// time of `a`'s last point (with the usual clamp), then appended.
pub open spec fn fused_points(a: Seq<Point>, b: Seq<Point>) -> Seq<Point> {
    if a.len() == 0 {
        b
    } else if b.len() == 0 {
        a
    } else {
        a + shifted_points(b, clamped_shift(b, a.last().time))
    }
}

/// Whether the shift that `fuse` applies to `b` stays representable.
pub open spec fn fuse_fits(a: Seq<Point>, b: Seq<Point>) -> bool {
    a.len() > 0 && b.len() > 0 ==> shift_fits(b, clamped_shift(b, a.last().time))
}

/// The timeline algebra: a small set of deterministic transformations
/// on an ordered sequence of points. Each operation has a mutating form
/// and a value-returning form with identical semantics; the latter
/// consumes the receiver and returns it.
pub trait TimedVec: Sized {
    /// The sequence of points this timeline holds, as contracts see it.
    spec fn pts(&self) -> Seq<Point>;

    /// Reorder ascending by time, stably.
    fn sort(&mut self)
        ensures
            final(self).pts() == sort_by_time(old(self).pts()),
    ;

    /// Shift every time by `t`, clamped so the first point in sequence
    /// order never becomes negative. No-op on an empty timeline.
    fn shift_time(&mut self, t: i64)
        requires
            old(self).pts().len() > 0 ==> shift_fits(
                old(self).pts(),
                clamped_shift(old(self).pts(), t),
            ),
        ensures
            old(self).pts().len() == 0 ==> final(self).pts() == old(self).pts(),
            old(self).pts().len() > 0 ==> final(self).pts() == shifted_points(
                old(self).pts(),
                clamped_shift(old(self).pts(), t),
            ),
    ;

    /// Shift every time by exactly the negation of the first point's
    /// time; exact cancellation, no clamping. No-op on an empty timeline.
    fn start_from_zero(&mut self)
        requires
            old(self).pts().len() > 0 ==> shift_fits(
                old(self).pts(),
                -(old(self).pts()[0].time as int),
            ),
        ensures
            old(self).pts().len() == 0 ==> final(self).pts() == old(self).pts(),
            old(self).pts().len() > 0 ==> final(self).pts() == shifted_points(
                old(self).pts(),
                -(old(self).pts()[0].time as int),
            ),
    ;

    /// Multiply every time by `factor`; other fields untouched.
    fn scale(&mut self, factor: i64)
        requires
            scale_fits(old(self).pts(), factor),
        ensures
            final(self).pts() == scaled_points(old(self).pts(), factor),
    ;

    /// Append `other`'s points, then re-sort the whole by time.
    fn merge(&mut self, other: Self)
        ensures
            final(self).pts() == sort_by_time(old(self).pts() + other.pts()),
    ;

    /// Sequential concatenation: if `self` is empty the result is exactly
    /// `other`; otherwise `other` is shifted by the end time of `self`'s
    /// last point (clamped as in `shift_time`) and appended.
    fn fuse(&mut self, other: Self)
        requires
            fuse_fits(old(self).pts(), other.pts()),
        ensures
            final(self).pts() == fused_points(old(self).pts(), other.pts()),
    ;

    /// Value-returning form of `sort`.
    fn sorted(self) -> (r: Self)
        ensures
            r.pts() == sort_by_time(self.pts()),
    ;

    /// Value-returning form of `shift_time`.
    fn time_shifted(self, t: i64) -> (r: Self)
        requires
            self.pts().len() > 0 ==> shift_fits(self.pts(), clamped_shift(self.pts(), t)),
        ensures
            self.pts().len() == 0 ==> r.pts() == self.pts(),
            self.pts().len() > 0 ==> r.pts() == shifted_points(
                self.pts(),
                clamped_shift(self.pts(), t),
            ),
    ;

    /// Value-returning form of `start_from_zero`.
    fn started_from_zero(self) -> (r: Self)
        requires
            self.pts().len() > 0 ==> shift_fits(self.pts(), -(self.pts()[0].time as int)),
        ensures
            self.pts().len() == 0 ==> r.pts() == self.pts(),
            self.pts().len() > 0 ==> r.pts() == shifted_points(
                self.pts(),
                -(self.pts()[0].time as int),
            ),
    ;

    /// Value-returning form of `scale`.
    fn scaled(self, factor: i64) -> (r: Self)
        requires
            scale_fits(self.pts(), factor),
        ensures
            r.pts() == scaled_points(self.pts(), factor),
    ;

    /// Value-returning form of `merge`.
    fn merged(self, other: Self) -> (r: Self)
        ensures
            r.pts() == sort_by_time(self.pts() + other.pts()),
    ;

    /// Value-returning form of `fuse`.
    fn fused(self, other: Self) -> (r: Self)
        requires
            fuse_fits(self.pts(), other.pts()),
        ensures
            r.pts() == fused_points(self.pts(), other.pts()),
    ;
}

/// Where the stable insertion lands: if everything at and after `j` is
/// strictly later than `p` and the element before `j` (if any) is not,
/// then inserting `p` by time is inserting it at position `j`.
proof fn lemma_insert_position(s: Seq<Point>, p: Point, j: int)
    requires
        0 <= j <= s.len(),
        forall|k: int| j <= k < s.len() ==> s[k].time > p.time,
        j > 0 ==> s[j - 1].time <= p.time,
    ensures
        insert_by_time(s, p) == s.insert(j, p),
    decreases s.len(),
{
    if s.len() == 0 {
        assert(insert_by_time(s, p) =~= s.insert(j, p));
    } else if j == s.len() {
        assert(!(p.time < s.last().time));
        assert(s.push(p) =~= s.insert(j, p));
    } else {
        assert(s[s.len() - 1].time > p.time);
        lemma_insert_position(s.drop_last(), p, j);
        assert(insert_by_time(s, p) == insert_by_time(s.drop_last(), p).push(s.last()));
        assert(s.drop_last().insert(j, p).push(s.last()) =~= s.insert(j, p));
    }
}

/// Inserting by time grows the sequence by one.
proof fn lemma_insert_len(s: Seq<Point>, p: Point)
    ensures
        insert_by_time(s, p).len() == s.len() + 1,
    decreases s.len(),
{
    if s.len() > 0 && p.time < s.last().time {
        lemma_insert_len(s.drop_last(), p);
    }
}

/// Sorting keeps the length.
pub proof fn lemma_sort_len(s: Seq<Point>)
    ensures
        sort_by_time(s).len() == s.len(),
    decreases s.len(),
{
    if s.len() > 0 {
        lemma_sort_len(s.drop_last());
        lemma_insert_len(sort_by_time(s.drop_last()), s.last());
    }
}

/// Inserting by time into a sorted sequence keeps it sorted.
proof fn lemma_insert_sorted(s: Seq<Point>, p: Point)
    requires
        time_sorted(s),
    ensures
        time_sorted(insert_by_time(s, p)),
    decreases s.len(),
{
    if s.len() == 0 {
    } else if p.time < s.last().time {
        assert(time_sorted(s.drop_last()));
        lemma_insert_sorted(s.drop_last(), p);
        lemma_insert_len(s.drop_last(), p);
        let r = insert_by_time(s.drop_last(), p).push(s.last());
        assert forall|i: int, j: int| 0 <= i <= j < r.len() implies r[i].time <= r[j].time by {
            if j == r.len() - 1 && i < j {
                let q = insert_by_time(s.drop_last(), p);
                if q[i] != p {
                    lemma_insert_member(s.drop_last(), p, i);
                }
            }
        }
    } else {
        let r = s.push(p);
        assert forall|i: int, j: int| 0 <= i <= j < r.len() implies r[i].time <= r[j].time by {
            if j == r.len() - 1 && i < j {
                assert(s[i].time <= s[s.len() - 1].time);
            }
        }
    }
}

/// Every element of an insertion's result is the inserted point or an
/// element of the original that was no later than it or was pushed right.
proof fn lemma_insert_member(s: Seq<Point>, p: Point, i: int)
    requires
        0 <= i < s.len() + 1,
    ensures
        insert_by_time(s, p).len() == s.len() + 1,
        insert_by_time(s, p)[i] == p || (insert_by_time(s, p)[i].time <= p.time && exists|k: int|
            0 <= k < s.len() && insert_by_time(s, p)[i] == s[k]) || (insert_by_time(s, p)[i].time
            > p.time && exists|k: int| 0 <= k < s.len() && insert_by_time(s, p)[i] == s[k]),
    decreases s.len(),
{
    lemma_insert_len(s, p);
    if s.len() == 0 {
    } else if p.time < s.last().time {
        lemma_insert_len(s.drop_last(), p);
        if i < s.len() {
            lemma_insert_member(s.drop_last(), p, i);
        }
    }
}

/// Sorting yields a sequence that is non-decreasing by time.
pub proof fn lemma_sort_sorted(s: Seq<Point>)
    ensures
        time_sorted(sort_by_time(s)),
    decreases s.len(),
{
    if s.len() > 0 {
        lemma_sort_sorted(s.drop_last());
        lemma_insert_sorted(sort_by_time(s.drop_last()), s.last());
    }
}

/// Sorting a sequence that is already sorted returns it unchanged.
pub proof fn lemma_sort_of_sorted(s: Seq<Point>)
    requires
        time_sorted(s),
    ensures
        sort_by_time(s) == s,
    decreases s.len(),
{
    if s.len() > 0 {
        assert(time_sorted(s.drop_last()));
        lemma_sort_of_sorted(s.drop_last());
        lemma_sort_len(s.drop_last());
        if s.len() >= 2 {
            assert(s[s.len() - 2].time <= s[s.len() - 1].time);
        }
        assert(insert_by_time(s.drop_last(), s.last()) == s.drop_last().push(s.last()));
        assert(s.drop_last().push(s.last()) =~= s);
    } else {
        assert(sort_by_time(s) =~= s);
    }
}

/// Inserting by time adds exactly the inserted point, as a multiset.
proof fn lemma_insert_multiset(s: Seq<Point>, p: Point)
    ensures
        insert_by_time(s, p).to_multiset() == s.to_multiset().insert(p),
    decreases s.len(),
{
    broadcast use vstd::seq_lib::group_to_multiset_ensures;

    if s.len() == 0 {
        assert forall|a: Point| s.to_multiset().count(a) == 0 by {
            assert(!s.contains(a));
        }
        assert(s.to_multiset() =~= Multiset::<Point>::empty());
        assert(seq![p] =~= Seq::<Point>::empty().push(p));
        assert(insert_by_time(s, p).to_multiset() =~= s.to_multiset().insert(p));
    } else if p.time < s.last().time {
        lemma_insert_multiset(s.drop_last(), p);
        assert(s.drop_last().push(s.last()) =~= s);
        assert(s.to_multiset() == s.drop_last().to_multiset().insert(s.last()));
        assert(insert_by_time(s, p).to_multiset() == s.drop_last().to_multiset().insert(p).insert(
            s.last(),
        ));
        assert(s.drop_last().to_multiset().insert(p).insert(s.last())
            =~= s.drop_last().to_multiset().insert(s.last()).insert(p));
    } else {
    }
}

/// Law: sorting permutes — `sort` keeps exactly the timeline's points,
/// as a multiset; nothing is lost, gained, or rewritten.
pub proof fn lemma_sort_permutes(s: Seq<Point>)
    ensures
        sort_by_time(s).to_multiset() == s.to_multiset(),
    decreases s.len(),
{
    broadcast use vstd::seq_lib::group_to_multiset_ensures;

    if s.len() > 0 {
        lemma_sort_permutes(s.drop_last());
        lemma_insert_multiset(sort_by_time(s.drop_last()), s.last());
        assert(s.drop_last().push(s.last()) =~= s);
        assert(s.to_multiset() == s.drop_last().to_multiset().insert(s.last()));
    }
}

/// Law: sorting is idempotent — `sort(sort(x)) == sort(x)` for any
/// timeline `x`.
pub proof fn lemma_sort_idempotent(s: Seq<Point>)
    ensures
        sort_by_time(sort_by_time(s)) == sort_by_time(s),
{
    lemma_sort_sorted(s);
    lemma_sort_of_sorted(sort_by_time(s));
}

/// Law: the shift applied by `shift_time` clamps at zero — after it,
/// the first point's time is never negative — and whenever the request
/// `t` is at least `-first_time`, the applied shift is `t` exactly.
pub proof fn lemma_shift_clamps(s: Seq<Point>, t: i64)
    requires
        s.len() > 0,
        shift_fits(s, clamped_shift(s, t)),
    ensures
        shifted_points(s, clamped_shift(s, t))[0].time >= 0,
        t >= -(s[0].time as int) ==> clamped_shift(s, t) == t as int,
{
    assert(s[0].time + clamped_shift(s, t) >= 0);
}

/// Law: after `start_from_zero` on a non-empty timeline, the first
/// point's time is exactly zero.
pub proof fn lemma_rebase_starts_at_zero(s: Seq<Point>)
    requires
        s.len() > 0,
    ensures
        shifted_points(s, -(s[0].time as int))[0].time == 0,
{
}

/// Law: `fuse` preserves total length — `len(fuse(a, b)) == len(a) + len(b)`.
pub proof fn lemma_fuse_length(a: Seq<Point>, b: Seq<Point>)
    ensures
        fused_points(a, b).len() == a.len() + b.len(),
{
}

/// Law: fusing onto an empty timeline returns the other unchanged.
pub proof fn lemma_fuse_empty_left(a: Seq<Point>, b: Seq<Point>)
    requires
        a.len() == 0,
    ensures
        fused_points(a, b) == b,
{
}

/// Law: continuity of `fuse` — for non-empty `a` and `b`, the first
/// point contributed by `b` lands at its own time advanced by the end
/// time of `a`'s last point, clamped at zero; in particular, when `b`
/// starts at time zero it lands exactly at that end time (post-clamp).
pub proof fn lemma_fuse_continuity(a: Seq<Point>, b: Seq<Point>)
    requires
        a.len() > 0,
        b.len() > 0,
        fuse_fits(a, b),
    ensures
        fused_points(a, b)[a.len() as int].time == if b[0].time + a.last().time >= 0 {
            b[0].time + a.last().time
        } else {
            0
        },
{
    assert(fused_points(a, b)[a.len() as int] == shifted_points(
        b,
        clamped_shift(b, a.last().time),
    )[0]);
}

/// Law: `merge(a, b)` is fully ascending by time, has length
/// `len(a) + len(b)`, and holds exactly the two inputs' points.
pub proof fn lemma_merge_sorted(a: Seq<Point>, b: Seq<Point>)
    ensures
        time_sorted(sort_by_time(a + b)),
        sort_by_time(a + b).len() == a.len() + b.len(),
        sort_by_time(a + b).to_multiset() == (a + b).to_multiset(),
{
    lemma_sort_sorted(a + b);
    lemma_sort_len(a + b);
    lemma_sort_permutes(a + b);
}

/// Stable insertion step for the executable sort: find the spot from the
/// right, then insert.
fn insert_point(res: &mut Vec<Point>, p: Point)
    ensures
        final(res)@ == insert_by_time(old(res)@, p),
{
    let mut j: usize = res.len();
    while j > 0 && res[j - 1].time > p.time
        invariant
            j <= res@.len(),
            res@ == old(res)@,
            forall|k: int| j <= k < res@.len() ==> res@[k].time > p.time,
        decreases j,
    {
        j = j - 1;
    }
    proof {
        lemma_insert_position(res@, p, j as int);
    }
    res.insert(j, p);
}

impl TimedVec for Vec<Point> {
    open spec fn pts(&self) -> Seq<Point> {
        self@
    }

    fn sort(&mut self) {
        let mut res: Vec<Point> = Vec::new();
        let mut i: usize = 0;
        while i < self.len()
            invariant
                i <= self@.len(),
                self@ == old(self)@,
                res@ == sort_by_time(self@.take(i as int)),
            decreases self@.len() - i,
        {
            let p = self[i];
            insert_point(&mut res, p);
            proof {
                assert(self@.take(i + 1 as int).drop_last() =~= self@.take(i as int));
                assert(self@.take(i + 1 as int).last() == self@[i as int]);
            }
            i = i + 1;
        }
        proof {
            assert(self@.take(self@.len() as int) =~= self@);
        }
        *self = res;
    }

    fn shift_time(&mut self, t: i64) {
        if self.len() == 0 {
            return ;
        }
        let begin: i64 = self[0].time;
        let neg: i128 = -(begin as i128);
        let sh: i128 = if (t as i128) >= neg {
            t as i128
        } else {
            neg
        };
        proof {
            assert(sh as int == clamped_shift(self@, t));
        }
        let ghost orig = self@;
        let mut out: Vec<Point> = Vec::new();
        let mut i: usize = 0;
        while i < self.len()
            invariant
                i <= self@.len(),
                self@ == orig,
                sh as int == clamped_shift(orig, t),
                shift_fits(orig, sh as int),
                out@ =~= shifted_points(orig, sh as int).take(i as int),
            decreases self@.len() - i,
        {
            let p = self[i];
            let nt: i128 = (p.time as i128) + sh;
            out.push(Point { time: nt as i64, ..p });
            proof {
                assert(out@ =~= shifted_points(orig, sh as int).take(i + 1 as int));
            }
            i = i + 1;
        }
        proof {
            assert(shifted_points(orig, sh as int).take(orig.len() as int) =~= shifted_points(
                orig,
                sh as int,
            ));
        }
        *self = out;
    }

    fn start_from_zero(&mut self) {
        if self.len() == 0 {
            return ;
        }
        let begin: i64 = self[0].time;
        let sh: i128 = -(begin as i128);
        let ghost orig = self@;
        let mut out: Vec<Point> = Vec::new();
        let mut i: usize = 0;
        while i < self.len()
            invariant
                i <= self@.len(),
                self@ == orig,
                sh as int == -(orig[0].time as int),
                shift_fits(orig, sh as int),
                out@ =~= shifted_points(orig, sh as int).take(i as int),
            decreases self@.len() - i,
        {
            let p = self[i];
            let nt: i128 = (p.time as i128) + sh;
            out.push(Point { time: nt as i64, ..p });
            proof {
                assert(out@ =~= shifted_points(orig, sh as int).take(i + 1 as int));
            }
            i = i + 1;
        }
        proof {
            assert(shifted_points(orig, sh as int).take(orig.len() as int) =~= shifted_points(
                orig,
                sh as int,
            ));
        }
        *self = out;
    }

    fn scale(&mut self, factor: i64) {
        let ghost orig = self@;
        let mut out: Vec<Point> = Vec::new();
        let mut i: usize = 0;
        while i < self.len()
            invariant
                i <= self@.len(),
                self@ == orig,
                scale_fits(orig, factor),
                out@ =~= scaled_points(orig, factor).take(i as int),
            decreases self@.len() - i,
        {
            let mut p = self[i];
            p.scale(factor);
            out.push(p);
            proof {
                assert(out@ =~= scaled_points(orig, factor).take(i + 1 as int));
            }
            i = i + 1;
        }
        proof {
            assert(scaled_points(orig, factor).take(orig.len() as int) =~= scaled_points(
                orig,
                factor,
            ));
        }
        *self = out;
    }

    fn merge(&mut self, other: Self) {
        let mut tail = other;
        self.append(&mut tail);
        self.sort();
    }

    fn fuse(&mut self, other: Self) {
        if self.len() == 0 {
            *self = other;
            return ;
        }
        if other.len() == 0 {
            return ;
        }
        let last_t: i64 = self[self.len() - 1].end();
        let mut tail = other.time_shifted(last_t);
        self.append(&mut tail);
    }

    fn sorted(self) -> Self {
        let mut v = self;
        v.sort();
        v
    }

    fn time_shifted(self, t: i64) -> Self {
        let mut v = self;
        v.shift_time(t);
        v
    }

    fn started_from_zero(self) -> Self {
        let mut v = self;
        v.start_from_zero();
        v
    }

    fn scaled(self, factor: i64) -> Self {
        let mut v = self;
        v.scale(factor);
        v
    }

    fn merged(self, other: Self) -> Self {
        let mut v = self;
        v.merge(other);
        v
    }

    fn fused(self, other: Self) -> Self {
        let mut v = self;
        v.fuse(other);
        v
    }
}

} // verus!
