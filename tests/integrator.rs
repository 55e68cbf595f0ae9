use rt_weekend_multithreaded::integrator::{Bounce, PathEnd, PathTracer};

#[test]
fn zero_depth_is_black_without_probing() {
    let t = PathTracer::new(0);
    assert_eq!(t.ended(), Some(PathEnd::Exhausted));
    assert_eq!(t.bounces(), 0);
    let t = PathTracer::new(-3);
    assert_eq!(t.ended(), Some(PathEnd::Exhausted));
}

#[test]
fn escaping_ray_sees_background() {
    let mut t = PathTracer::new(50);
    assert_eq!(t.ended(), None);
    t.record(Bounce::Escaped);
    assert_eq!(t.ended(), Some(PathEnd::Escaped));
    assert_eq!(t.bounces(), 0);
}

#[test]
fn absorbed_after_one_scatter() {
    let mut t = PathTracer::new(50);
    t.record(Bounce::Scattered);
    assert_eq!(t.ended(), None);
    t.record(Bounce::Absorbed);
    assert_eq!(t.ended(), Some(PathEnd::Absorbed));
    assert_eq!(t.bounces(), 1);
}

#[test]
fn budget_runs_out() {
    let mut t = PathTracer::new(2);
    t.record(Bounce::Scattered);
    assert_eq!(t.ended(), None);
    t.record(Bounce::Scattered);
    assert_eq!(t.ended(), Some(PathEnd::Exhausted));
    assert_eq!(t.bounces(), 2);
}

#[test]
fn depth_one_escape_after_no_scatter() {
    let mut t = PathTracer::new(1);
    t.record(Bounce::Escaped);
    assert_eq!(t.ended(), Some(PathEnd::Escaped));
    let mut t = PathTracer::new(1);
    t.record(Bounce::Scattered);
    assert_eq!(t.ended(), Some(PathEnd::Exhausted));
    assert_eq!(t.bounces(), 1);
}
