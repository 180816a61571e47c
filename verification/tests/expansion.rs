use simsweep::parameters::{
    ConfigError, Fixed, LinspaceParameters, Meta, Parameterized, ScalarValue,
};

fn range(start: i64, end: i64, steps: usize) -> LinspaceParameters {
    LinspaceParameters { start: Some(start), end: Some(end), steps: Some(steps), fixed: None }
}

fn fixed(v: i64) -> LinspaceParameters {
    LinspaceParameters { start: None, end: None, steps: None, fixed: Some(v) }
}

#[test]
fn fixed_expands_to_exactly_its_value() {
    let p = Fixed(ScalarValue { num: 2, den: 1 });
    assert_eq!(p.generate(), Ok(vec![ScalarValue { num: 2, den: 1 }]));
}

#[test]
fn fixed_form_description_expands_to_one_value() {
    assert_eq!(fixed(7).generate(), Ok(vec![ScalarValue { num: 7, den: 1 }]));
}

#[test]
fn range_expands_to_exact_evenly_spaced_points() {
    let v = range(0, 10, 3).generate().unwrap();
    assert_eq!(
        v,
        vec![
            ScalarValue { num: 0, den: 2 },
            ScalarValue { num: 10, den: 2 },
            ScalarValue { num: 20, den: 2 },
        ]
    );
}

#[test]
fn range_is_strictly_increasing_with_exact_endpoints() {
    let start: i64 = 1;
    let end: i64 = 4;
    let v = range(start, end, 4).generate().unwrap();
    assert_eq!(v.len(), 4);
    for w in v.windows(2) {
        // same denominator, so the numerators carry the strict order
        assert_eq!(w[0].den, w[1].den);
        assert!(w[0].num < w[1].num);
    }
    // first == start and last == end as exact rationals
    let first = v[0];
    assert_eq!(first.num, i128::from(start) * i128::from(first.den));
    let last = v[v.len() - 1];
    assert_eq!(last.num, i128::from(end) * i128::from(last.den));
}

#[test]
fn descending_range_is_strictly_decreasing() {
    let v = range(5, 1, 2).generate().unwrap();
    assert_eq!(v, vec![ScalarValue { num: 5, den: 1 }, ScalarValue { num: 1, den: 1 }]);
    assert!(v[0].num > v[1].num);
}

#[test]
fn range_beside_fixed_value_is_rejected() {
    let p = LinspaceParameters {
        start: Some(0),
        end: Some(10),
        steps: Some(3),
        fixed: Some(2),
    };
    assert_eq!(p.generate(), Err(ConfigError::ConflictingParameters));
}

#[test]
fn empty_description_is_rejected() {
    let p = LinspaceParameters { start: None, end: None, steps: None, fixed: None };
    assert_eq!(p.generate(), Err(ConfigError::IncompleteParameters));
}

#[test]
fn partial_range_beside_fixed_value_reads_as_fixed() {
    let p = LinspaceParameters { start: Some(1), end: None, steps: None, fixed: Some(9) };
    assert_eq!(p.generate(), Ok(vec![ScalarValue { num: 9, den: 1 }]));
}

#[test]
fn zero_step_range_is_rejected() {
    assert_eq!(range(0, 10, 0).generate(), Err(ConfigError::InvalidSteps));
}

#[test]
fn single_point_range_is_rejected() {
    assert_eq!(range(0, 10, 1).generate(), Err(ConfigError::InvalidSteps));
}

#[test]
fn oversized_range_is_rejected() {
    let steps = (u32::MAX as usize) + 2;
    assert_eq!(range(0, 10, steps).generate(), Err(ConfigError::StepsTooLarge));
}

#[test]
fn meta_parameter_expands_like_its_description() {
    let m = Meta(range(0, 4, 2));
    assert_eq!(
        m.generate(),
        Ok(vec![ScalarValue { num: 0, den: 1 }, ScalarValue { num: 4, den: 1 }])
    );
}

#[test]
fn integer_scalar_has_denominator_one() {
    assert_eq!(ScalarValue::integer(-3), ScalarValue { num: -3, den: 1 });
}

#[test]
fn coincident_bounds_give_a_constant_range() {
    let v = range(3, 3, 3).generate().unwrap();
    assert_eq!(v.len(), 3);
    for p in &v {
        // every point equals 3 as an exact rational
        assert_eq!(p.num, 3 * i128::from(p.den));
    }
}
