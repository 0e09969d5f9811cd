use car_model::interval::{DistanceInterval, Fraction, IntervalError, TimeInterval};

#[test]
fn percent_at_ends_and_middle() {
    let i = TimeInterval { start: 10, end: 30 };
    assert_eq!(i.percent(10), Ok(Fraction { num: 0, den: 20 }));
    assert_eq!(i.percent(30), Ok(Fraction { num: 20, den: 20 }));
    assert_eq!(i.percent(15), Ok(Fraction { num: 5, den: 20 }));
}

#[test]
fn percent_grows_with_time() {
    let i = TimeInterval { start: 0, end: 7 };
    let mut last = 0;
    for t in 0..=7 {
        let f = i.percent(t).unwrap();
        assert!(f.num >= last);
        assert_eq!(f.den, 7);
        last = f.num;
    }
}

#[test]
fn percent_outside_interval_is_refused() {
    let i = TimeInterval { start: 10, end: 30 };
    assert_eq!(i.percent(9), Err(IntervalError::TimeOutOfRange));
    assert_eq!(i.percent(31), Err(IntervalError::TimeOutOfRange));
}

#[test]
fn lerp_at_ends_and_middle() {
    let d = DistanceInterval { start: 100, end: 200 };
    assert_eq!(d.lerp(Fraction { num: 0, den: 4 }), Ok(100));
    assert_eq!(d.lerp(Fraction { num: 4, den: 4 }), Ok(200));
    assert_eq!(d.lerp(Fraction { num: 1, den: 4 }), Ok(125));
    assert_eq!(d.lerp(Fraction { num: 1, den: 3 }), Ok(133));
}

#[test]
fn lerp_grows_with_fraction() {
    let d = DistanceInterval { start: 3, end: 17 };
    let mut last = 3;
    for n in 0..=9 {
        let x = d.lerp(Fraction { num: n, den: 9 }).unwrap();
        assert!(x >= last);
        last = x;
    }
    assert_eq!(last, 17);
}

#[test]
fn lerp_handles_full_range() {
    let d = DistanceInterval { start: 0, end: u64::MAX };
    assert_eq!(d.lerp(Fraction { num: u64::MAX, den: u64::MAX }), Ok(u64::MAX));
    assert_eq!(d.lerp(Fraction { num: 1, den: 2 }), Ok(u64::MAX / 2));
}

#[test]
fn lerp_outside_unit_is_refused() {
    let d = DistanceInterval { start: 0, end: 10 };
    assert_eq!(d.lerp(Fraction { num: 5, den: 4 }), Err(IntervalError::FractionOutOfRange));
    assert_eq!(d.lerp(Fraction { num: 0, den: 0 }), Err(IntervalError::FractionOutOfRange));
}

#[test]
fn percent_then_lerp_gives_front() {
    let t = TimeInterval { start: 0, end: 10 };
    let d = DistanceInterval { start: 0, end: 50 };
    assert_eq!(d.lerp(t.percent(4).unwrap()), Ok(20));
}
