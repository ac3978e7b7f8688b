use steprange::{range, JsIteratorResult, Range, RangeError};

fn value(v: i32) -> Result<JsIteratorResult, RangeError> {
    Ok(JsIteratorResult { value: Some(v), done: false })
}

fn done() -> Result<JsIteratorResult, RangeError> {
    Ok(JsIteratorResult { value: None, done: true })
}

fn collect_traversal(r: &mut Range) -> Vec<i32> {
    let mut out = Vec::new();
    loop {
        match r.next() {
            Ok(JsIteratorResult { value: Some(v), done: false }) => out.push(v),
            Ok(JsIteratorResult { value: None, done: true }) => return out,
            other => panic!("unexpected pull: {:?}", other),
        }
    }
}

#[test]
fn exclusive_unit_step_traversal() {
    let mut r = range(1, 5, 1, false).unwrap();
    assert_eq!(collect_traversal(&mut r), vec![1, 2, 3, 4]);
}

#[test]
fn inclusive_unit_step_traversal() {
    let mut r = range(1, 5, 1, true).unwrap();
    assert_eq!(collect_traversal(&mut r), vec![1, 2, 3, 4, 5]);
}

#[test]
fn stepped_traversal_stops_before_stop() {
    let mut r = range(1, 10, 2, false).unwrap();
    assert_eq!(collect_traversal(&mut r), vec![1, 3, 5, 7, 9]);
    let mut r = range(0, 9, 3, false).unwrap();
    assert_eq!(collect_traversal(&mut r), vec![0, 3, 6]);
    let mut r = range(0, 9, 3, true).unwrap();
    assert_eq!(collect_traversal(&mut r), vec![0, 3, 6, 9]);
}

#[test]
fn zero_step_behaves_as_unit_step() {
    let mut zero = range(-2, 3, 0, true).unwrap();
    let mut one = range(-2, 3, 1, true).unwrap();
    assert_eq!(zero.step(), 1);
    assert_eq!(zero.to_string(), one.to_string());
    for _ in 0..15 {
        assert_eq!(zero.next(), one.next());
    }
}

#[test]
fn single_point_ranges() {
    let mut inc = range(5, 5, 1, true).unwrap();
    assert_eq!(inc.next(), value(5));
    assert_eq!(inc.next(), done());
    let mut exc = range(5, 5, 1, false).unwrap();
    assert_eq!(exc.next(), done());
}

#[test]
fn start_after_stop_is_refused() {
    let err = range(5, 2, 1, false).err().unwrap();
    assert_eq!(err, RangeError::InvalidRange { start: 5, stop: 2 });
    assert_eq!(err.message(), "Cannot create a range from 5 to 2");
}

#[test]
fn negative_bounds_in_error_message() {
    let err = range(-3, -10, 1, true).err().unwrap();
    assert_eq!(err.message(), "Cannot create a range from -3 to -10");
}

#[test]
fn exhaustion_restarts_from_start() {
    let mut r = range(1, 3, 1, false).unwrap();
    for _ in 0..4 {
        assert_eq!(r.next(), value(1));
        assert_eq!(r.next(), value(2));
        assert_eq!(r.next(), done());
    }
}

#[test]
fn text_forms() {
    assert_eq!(range(1, 5, 1, false).unwrap().to_string(), "1..5");
    assert_eq!(range(1, 5, 1, true).unwrap().to_string(), "1..=5");
    assert_eq!(range(1, 10, 2, false).unwrap().to_string(), "1..10{2}");
    assert_eq!(range(1, 10, 2, true).unwrap().to_string(), "1..=10{2}");
    assert_eq!(range(-12, 0, 0, false).unwrap().to_string(), "-12..0");
    assert_eq!(
        Range::new(i32::MIN, i32::MAX, -7, true).to_string(),
        "-2147483648..=2147483647{-7}"
    );
}

#[test]
fn last_follows_unit_step_rule() {
    assert_eq!(range(1, 5, 2, true).unwrap().last(), 5);
    assert_eq!(range(1, 5, 2, false).unwrap().last(), 4);
    assert_eq!(range(i32::MIN, i32::MIN, 1, false).unwrap().last(), i32::MIN as i64 - 1);
}

#[test]
fn accessors_report_descriptor() {
    let r = range(-4, 8, 3, true).unwrap();
    assert_eq!(r.start(), -4);
    assert_eq!(r.stop(), 8);
    assert_eq!(r.step(), 3);
    assert!(r.is_inclusive());
    assert_eq!(r.first(), -4);
    assert_eq!(r.last(), 8);
}

#[test]
fn accessors_do_not_disturb_cursor() {
    let mut r = range(0, 4, 2, false).unwrap();
    assert_eq!(r.next(), value(0));
    let _ = (r.start(), r.last(), r.to_string());
    assert_eq!(r.next(), value(2));
    assert_eq!(r.next(), done());
}

#[test]
fn traversal_up_to_largest_value() {
    let mut r = range(i32::MAX - 2, i32::MAX, 1, true).unwrap();
    assert_eq!(collect_traversal(&mut r), vec![i32::MAX - 2, i32::MAX - 1, i32::MAX]);
    let mut r = range(i32::MAX - 5, i32::MAX, i32::MAX, true).unwrap();
    assert_eq!(collect_traversal(&mut r), vec![i32::MAX - 5]);
    assert_eq!(collect_traversal(&mut r), vec![i32::MAX - 5]);
}

#[test]
fn negative_step_reports_overflow_and_restarts() {
    let mut r = range(i32::MIN + 1, 0, -1, false).unwrap();
    assert_eq!(r.next(), value(i32::MIN + 1));
    assert_eq!(r.next(), value(i32::MIN));
    assert_eq!(r.next(), Err(RangeError::ArithmeticOverflow));
    assert_eq!(r.next(), value(i32::MIN + 1));
    assert_eq!(
        RangeError::ArithmeticOverflow.message(),
        "Arithmetic overflow while stepping the range"
    );
}
