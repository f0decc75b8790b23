use marrow_run::direction::{in_range, step_direction, RangeDirection};
use marrow_run::range::{
    classify, date_range_iter, duration_whole_days, instant_range_iter, int_range_iter,
    loop_step_flow, nonzero_range_step, Flow, LoopControl, LoopStep, RangeError, RangeIter,
    RangeValue, StepValue,
};
use std::cmp::Ordering;

const DAY: i128 = 86_400_000_000_000;

fn drain(mut it: RangeIter) -> Result<Vec<RangeValue>, RangeError> {
    let mut out = Vec::new();
    while let Some(v) = it.next_value()? {
        out.push(v);
        assert!(out.len() < 10_000, "range did not end");
    }
    Ok(out)
}

fn ints(values: &[i64]) -> Vec<RangeValue> {
    values.iter().map(|v| RangeValue::Int(*v)).collect()
}

#[test]
fn int_ranges_walk_their_progression() {
    assert_eq!(drain(int_range_iter(1, 5, None, false).unwrap()), Ok(ints(&[1, 2, 3, 4])));
    assert_eq!(drain(int_range_iter(1, 5, None, true).unwrap()), Ok(ints(&[1, 2, 3, 4, 5])));
    assert_eq!(
        drain(int_range_iter(10, 0, Some(StepValue::Int(-3)), true).unwrap()),
        Ok(ints(&[10, 7, 4, 1]))
    );
    assert_eq!(drain(int_range_iter(5, 1, None, true).unwrap()), Ok(ints(&[])));
    assert_eq!(drain(int_range_iter(3, 3, None, false).unwrap()), Ok(ints(&[])));
}

#[test]
fn int_ranges_stop_at_the_edge_of_int() {
    assert_eq!(
        drain(int_range_iter(i64::MAX - 2, i64::MAX, None, true).unwrap()),
        Ok(ints(&[i64::MAX - 2, i64::MAX - 1, i64::MAX]))
    );
    assert_eq!(
        drain(int_range_iter(i64::MIN + 1, i64::MIN, Some(StepValue::Int(-1)), true).unwrap()),
        Ok(ints(&[i64::MIN + 1, i64::MIN]))
    );
}

#[test]
fn zero_and_mistyped_steps_are_refused() {
    assert_eq!(int_range_iter(0, 3, Some(StepValue::Int(0)), true).err(), Some(RangeError::ZeroStep));
    assert_eq!(
        int_range_iter(0, 3, Some(StepValue::Duration(1)), true).err(),
        Some(RangeError::IntStepNotInt)
    );
    assert_eq!(
        date_range_iter(0, 3, Some(StepValue::Int(1)), true).err(),
        Some(RangeError::DateStepNotDuration)
    );
    assert_eq!(
        instant_range_iter(0, 3, None, true).err(),
        Some(RangeError::InstantNeedsStep)
    );
    assert_eq!(
        instant_range_iter(0, 3, Some(StepValue::Duration(0)), true).err(),
        Some(RangeError::ZeroStep)
    );
    assert_eq!(nonzero_range_step(0), Err(RangeError::ZeroStep));
    assert_eq!(nonzero_range_step(-2), Ok(()));
}

#[test]
fn date_ranges_step_by_whole_days() {
    assert_eq!(duration_whole_days(2 * DAY), Ok(2));
    assert_eq!(duration_whole_days(-DAY), Ok(-1));
    assert_eq!(duration_whole_days(DAY + 1), Err(RangeError::StepNotWholeDays));
    assert_eq!(duration_whole_days(i128::MAX / DAY * DAY), Err(RangeError::Overflow));
    let days = drain(date_range_iter(0, 6, Some(StepValue::Duration(2 * DAY)), false).unwrap());
    assert_eq!(days, Ok(vec![RangeValue::Date(0), RangeValue::Date(2), RangeValue::Date(4)]));
    assert_eq!(
        drain(date_range_iter(i32::MAX - 1, i32::MAX, None, true).unwrap()),
        Ok(vec![RangeValue::Date(i32::MAX - 1), RangeValue::Date(i32::MAX)])
    );
}

#[test]
fn instant_ranges_fail_on_overflow() {
    assert_eq!(
        drain(instant_range_iter(0, 10, Some(StepValue::Duration(4)), true).unwrap()),
        Ok(vec![RangeValue::Instant(0), RangeValue::Instant(4), RangeValue::Instant(8)])
    );
    assert_eq!(
        drain(instant_range_iter(i128::MAX - 1, i128::MAX, Some(StepValue::Duration(5)), true).unwrap()),
        Err(RangeError::Overflow)
    );
}

#[test]
fn direction_and_bounds() {
    assert_eq!(step_direction(Ordering::Greater), RangeDirection::Ascending);
    assert_eq!(step_direction(Ordering::Less), RangeDirection::Descending);
    assert_eq!(step_direction(Ordering::Equal), RangeDirection::Empty);
    assert!(in_range(3, 3, true, RangeDirection::Ascending));
    assert!(!in_range(3, 3, false, RangeDirection::Ascending));
    assert!(in_range(4, 3, false, RangeDirection::Descending));
    assert!(!in_range(0, 9, true, RangeDirection::Empty));
}

#[test]
fn loop_flows() {
    assert_eq!(classify::<u8>(Flow::Normal), LoopStep::Iterate);
    assert_eq!(classify::<u8>(Flow::Continue), LoopStep::Iterate);
    assert_eq!(classify::<u8>(Flow::Break), LoopStep::Stop);
    assert_eq!(classify(Flow::Leave(7u8)), LoopStep::Propagate(Flow::Leave(7u8)));
    assert_eq!(loop_step_flow::<u8>(LoopStep::Iterate), LoopControl::Continue);
    assert_eq!(loop_step_flow::<u8>(LoopStep::Stop), LoopControl::Break(Flow::Normal));
    assert_eq!(
        loop_step_flow(LoopStep::Propagate(Flow::Leave(1u8))),
        LoopControl::Break(Flow::Leave(1u8))
    );
    assert_eq!(RangeError::ZeroStep.message(), "a range step cannot be zero");
}
