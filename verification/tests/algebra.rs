use floww::{DecodeIntoFlowwPackets, Encodable, Floww, IntoFlowwPackets, Point, TimedVec};

fn pt(id: u64, time: i64, note: i64, vel: i64) -> Point {
    Point { id, time, note, vel }
}

#[test]
fn it_works() {
    assert_eq!(2 + 2, 4);
}

#[test]
fn floww_ops() {
    let a = vec![pt(0, 1_000_000, 0, 0), pt(1, 0, 0, 0)];
    let b = a.sorted();
    assert_eq!(b, vec![pt(1, 0, 0, 0), pt(0, 1_000_000, 0, 0)]);
    let c = b.time_shifted(5_000_000);
    assert_eq!(c, vec![pt(1, 5_000_000, 0, 0), pt(0, 6_000_000, 0, 0)]);
    let d = c.time_shifted(-10_000_000);
    assert_eq!(d, vec![pt(1, 0, 0, 0), pt(0, 1_000_000, 0, 0)]);
    let e = d.time_shifted(456_000_000).started_from_zero();
    assert_eq!(e, vec![pt(1, 0, 0, 0), pt(0, 1_000_000, 0, 0)]);
    let f = e.merged(vec![pt(2, 500_000, 0, 0)]);
    assert_eq!(f, vec![pt(1, 0, 0, 0), pt(2, 500_000, 0, 0), pt(0, 1_000_000, 0, 0)]);
    let g = f.fused(vec![pt(3, 1_000_000, 0, 0)]);
    assert_eq!(
        g,
        vec![pt(1, 0, 0, 0), pt(2, 500_000, 0, 0), pt(0, 1_000_000, 0, 0), pt(3, 2_000_000, 0, 0)]
    );
    let h = g.scaled(2);
    assert_eq!(
        h,
        vec![pt(1, 0, 0, 0), pt(2, 1_000_000, 0, 0), pt(0, 2_000_000, 0, 0), pt(3, 4_000_000, 0, 0)]
    );
    let i = h.into_packets();
    let j = i.encode().decoded().unwrap();
    assert_eq!(i, j);
}

#[test]
fn sort_is_idempotent() {
    let x = vec![pt(0, 30, 0, 0), pt(1, 10, 0, 0), pt(2, 20, 0, 0), pt(3, 10, 0, 0)];
    let once = x.sorted();
    let twice = once.clone().sorted();
    assert_eq!(once, twice);
}

#[test]
fn sort_keeps_equal_times_in_order() {
    let x = vec![pt(9, 5, 0, 0), pt(1, 2, 0, 0), pt(2, 2, 0, 0), pt(3, 2, 0, 0)];
    let s = x.sorted();
    assert_eq!(s, vec![pt(1, 2, 0, 0), pt(2, 2, 0, 0), pt(3, 2, 0, 0), pt(9, 5, 0, 0)]);
}

#[test]
fn shift_clamps_non_negative() {
    let x = vec![pt(0, 3, 0, 0), pt(1, 7, 0, 0)];
    let y = x.time_shifted(-100);
    assert_eq!(y[0].time, 0);
    assert_eq!(y, vec![pt(0, 0, 0, 0), pt(1, 4, 0, 0)]);
    let z = vec![pt(0, 3, 0, 0)].time_shifted(-2);
    assert_eq!(z, vec![pt(0, 1, 0, 0)]);
}

#[test]
fn shift_on_empty_is_noop() {
    let x: Floww = Vec::new();
    assert_eq!(x.time_shifted(123), Vec::new());
    let y: Floww = Vec::new();
    assert_eq!(y.started_from_zero(), Vec::new());
}

#[test]
fn rebase_starts_at_zero() {
    let x = vec![pt(0, 41, 0, 0), pt(1, 45, 0, 0), pt(2, 12, 0, 0)];
    let y = x.started_from_zero();
    assert_eq!(y[0].time, 0);
    assert_eq!(y, vec![pt(0, 0, 0, 0), pt(1, 4, 0, 0), pt(2, -29, 0, 0)]);
}

#[test]
fn scale_touches_only_time() {
    let x = vec![pt(7, 10, 60, 999)];
    assert_eq!(x.scaled(3), vec![pt(7, 30, 60, 999)]);
}

#[test]
fn merge_is_sorted_and_full_length() {
    let a = vec![pt(0, 5, 0, 0), pt(1, 1, 0, 0)];
    let b = vec![pt(2, 3, 0, 0), pt(3, 0, 0, 0)];
    let m = a.merged(b);
    assert_eq!(m.len(), 4);
    for w in m.windows(2) {
        assert!(w[0].time <= w[1].time);
    }
    assert_eq!(m, vec![pt(3, 0, 0, 0), pt(1, 1, 0, 0), pt(2, 3, 0, 0), pt(0, 5, 0, 0)]);
}

#[test]
fn fuse_length_and_continuity() {
    let a = vec![pt(0, 2, 0, 0), pt(1, 6, 0, 0)];
    let b = vec![pt(2, 0, 0, 0), pt(3, 1, 0, 0)];
    let f = a.fused(b);
    assert_eq!(f.len(), 4);
    // the first point contributed by `b` lands at the end time of
    // `a`'s last point
    assert_eq!(f[2].time, 6);
    assert_eq!(f, vec![pt(0, 2, 0, 0), pt(1, 6, 0, 0), pt(2, 6, 0, 0), pt(3, 7, 0, 0)]);
}

#[test]
fn fuse_onto_empty_returns_other_unchanged() {
    let a: Floww = Vec::new();
    let b = vec![pt(4, 9, 0, 0), pt(5, 3, 0, 0)];
    assert_eq!(a.fused(b.clone()), b);
}

#[test]
fn fuse_with_negative_last_end_clamps() {
    let a = vec![pt(0, -5, 0, 0)];
    let b = vec![pt(1, 0, 0, 0)];
    // the shift by -5 is clamped so b's first point stays at 0
    assert_eq!(a.fused(b), vec![pt(0, -5, 0, 0), pt(1, 0, 0, 0)]);
}

#[test]
fn mutating_forms_match_value_forms() {
    let mut x = vec![pt(0, 9, 0, 0), pt(1, 4, 0, 0)];
    x.sort();
    assert_eq!(x, vec![pt(1, 4, 0, 0), pt(0, 9, 0, 0)]);
    x.shift_time(6);
    assert_eq!(x, vec![pt(1, 10, 0, 0), pt(0, 15, 0, 0)]);
    x.start_from_zero();
    assert_eq!(x, vec![pt(1, 0, 0, 0), pt(0, 5, 0, 0)]);
    x.scale(2);
    assert_eq!(x, vec![pt(1, 0, 0, 0), pt(0, 10, 0, 0)]);
    x.merge(vec![pt(2, 5, 0, 0)]);
    assert_eq!(x, vec![pt(1, 0, 0, 0), pt(2, 5, 0, 0), pt(0, 10, 0, 0)]);
    x.fuse(vec![pt(3, 0, 0, 0)]);
    assert_eq!(x, vec![pt(1, 0, 0, 0), pt(2, 5, 0, 0), pt(0, 10, 0, 0), pt(3, 10, 0, 0)]);
}
