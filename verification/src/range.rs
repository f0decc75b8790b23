//! Range iteration for `for` loops: the direction a step walks, the bound
//! test, the cursors over int, date and instant ranges, and how a loop body's
//! flow steers the loop.

use vstd::prelude::*;

use crate::direction::{direction_for, in_range, in_range_spec, RangeDirection};
use crate::temporal::NANOS_PER_DAY;

verus! {

/// How a loop body ended, with the payload of a flow that leaves the loop.
#[derive(Debug, Clone, PartialEq, Eq)]
pub enum Flow<P> {
    Normal,
    Continue,
    Break,
    Leave(P),
}

/// What a loop does after one run of its body.
#[derive(Debug, Clone, PartialEq, Eq)]
pub enum LoopStep<P> {
    Iterate,
    Stop,
    Propagate(Flow<P>),
}

/// A normal or `continue` flow runs the next iteration, `break` stops the
/// loop, and any other flow leaves the loop unchanged.
pub fn classify<P>(flow: Flow<P>) -> (r: LoopStep<P>)
    ensures
        r == (match flow {
            Flow::Normal => LoopStep::Iterate,
            Flow::Continue => LoopStep::Iterate,
            Flow::Break => LoopStep::Stop,
            Flow::Leave(p) => LoopStep::Propagate(Flow::Leave(p)),
        }),
{
    match flow {
        Flow::Normal => LoopStep::Iterate,
        Flow::Continue => LoopStep::Iterate,
        Flow::Break => LoopStep::Stop,
        Flow::Leave(p) => LoopStep::Propagate(Flow::Leave(p)),
    }
}

/// Whether a streamed loop goes on, or stops with the flow the loop ends in.
#[derive(Debug, Clone, PartialEq, Eq)]
pub enum LoopControl<P> {
    Continue,
    Break(Flow<P>),
}

/// A stop ends the loop normally; a propagated flow ends it with that flow.
pub fn loop_step_flow<P>(step: LoopStep<P>) -> (r: LoopControl<P>)
    ensures
        r == (match step {
            LoopStep::Iterate => LoopControl::Continue,
            LoopStep::Stop => LoopControl::Break(Flow::Normal),
            LoopStep::Propagate(flow) => LoopControl::Break(flow),
        }),
{
    match step {
        LoopStep::Iterate => LoopControl::Continue,
        LoopStep::Stop => LoopControl::Break(Flow::Normal),
        LoopStep::Propagate(flow) => LoopControl::Break(flow),
    }
}

/// The direction of a step, by its sign.
pub open spec fn direction_of(step: int) -> RangeDirection {
    if step > 0 {
        RangeDirection::Ascending
    } else if step < 0 {
        RangeDirection::Descending
    } else {
        RangeDirection::Empty
    }
}

/// Whether a cursor at `current` stepping by `step` still yields a value.
pub open spec fn range_within(current: int, end: int, inclusive: bool, step: int) -> bool {
    in_range_spec(current, end, inclusive, direction_of(step))
}

/// How many more values a cursor can yield at most, a bound that each step
/// inside the range lowers.
pub open spec fn range_measure(current: int, end: int, step: int) -> nat {
    if step > 0 && current <= end {
        (end - current + 1) as nat
    } else if step < 0 && current >= end {
        (current - end + 1) as nat
    } else {
        0
    }
}

/// The values a range cursor yields: `current`, `current + step`, ... while
/// they stay inside the range.
pub open spec fn progression(current: int, end: int, inclusive: bool, step: int) -> Seq<int>
    decreases range_measure(current, end, step),
{
    if range_within(current, end, inclusive, step) {
        seq![current] + progression(current + step, end, inclusive, step)
    } else {
        Seq::empty()
    }
}

/// The value at position `k` of a range from `start` stepping by `step`.
pub open spec fn nth_step(start: int, k: int, step: int) -> int {
    start + k * step
}

/// Every value of a range is `start + k * step` for its position `k`, and
/// lies inside the range; a zero step yields no value.
pub proof fn lemma_progression_values(start: int, end: int, inclusive: bool, step: int)
    ensures
        step == 0 ==> progression(start, end, inclusive, step).len() == 0,
        forall|k: int|
            0 <= k < progression(start, end, inclusive, step).len() ==> #[trigger] progression(start, end, inclusive, step)[k]
                == nth_step(start, k, step),
        forall|k: int|
            0 <= k < progression(start, end, inclusive, step).len() ==> range_within(
                #[trigger] nth_step(start, k, step),
                end,
                inclusive,
                step,
            ),
    decreases range_measure(start, end, step),
{
    let p = progression(start, end, inclusive, step);
    if range_within(start, end, inclusive, step) {
        lemma_progression_values(start + step, end, inclusive, step);
        let q = progression(start + step, end, inclusive, step);
        assert(p == seq![start] + q);
        assert forall|k: int| 0 <= k < p.len() implies #[trigger] p[k] == nth_step(start, k, step)
            && range_within(nth_step(start, k, step), end, inclusive, step) by {
            if k > 0 {
                let m = k - 1;
                assert(p[k] == q[m]);
                assert(q[m] == nth_step(start + step, m, step));
                assert(range_within(nth_step(start + step, m, step), end, inclusive, step));
                assert(nth_step(start + step, m, step) == nth_step(start, k, step)) by (nonlinear_arith)
                    requires
                        m == k - 1,
                ;
            } else {
                assert(nth_step(start, k, step) == start) by (nonlinear_arith)
                    requires
                        k == 0,
                ;
            }
        }
        assert forall|k: int| 0 <= k < p.len() implies range_within(
            #[trigger] nth_step(start, k, step),
            end,
            inclusive,
            step,
        ) by {
            assert(p[k] == nth_step(start, k, step));
        }
    }
}

/// Why a range cannot be built or walked.
#[derive(Debug, Clone, Copy, PartialEq, Eq, Structural)]
pub enum RangeError {
    IntStepNotInt,
    DateStepNotDuration,
    InstantStepNotDuration,
    InstantNeedsStep,
    ZeroStep,
    StepNotWholeDays,
    Overflow,
}

/// The diagnostic text of each refusal.
pub open spec fn range_error_text(e: RangeError) -> Seq<char> {
    match e {
        RangeError::IntStepNotInt => "an int range steps by an int"@,
        RangeError::DateStepNotDuration => "a date range steps by a duration"@,
        RangeError::InstantStepNotDuration => "an instant range steps by a duration"@,
        RangeError::InstantNeedsStep => "an instant range needs an explicit `by` step"@,
        RangeError::ZeroStep => "a range step cannot be zero"@,
        RangeError::StepNotWholeDays => "a date range step must be a whole number of days"@,
        RangeError::Overflow => "integer overflow"@,
    }
}

impl RangeError {
    /// The diagnostic text of this refusal.
    pub fn message(&self) -> (r: &'static str)
        ensures
            r@ == range_error_text(*self),
    {
        match self {
            RangeError::IntStepNotInt => "an int range steps by an int",
            RangeError::DateStepNotDuration => "a date range steps by a duration",
            RangeError::InstantStepNotDuration => "an instant range steps by a duration",
            RangeError::InstantNeedsStep => "an instant range needs an explicit `by` step",
            RangeError::ZeroStep => "a range step cannot be zero",
            RangeError::StepNotWholeDays => "a date range step must be a whole number of days",
            RangeError::Overflow => "integer overflow",
        }
    }
}

/// The value a `by` clause evaluated to: an int, a duration in nanoseconds,
/// or a value of some other type.
#[derive(Debug, Clone, Copy, PartialEq, Eq, Structural)]
pub enum StepValue {
    Int(i64),
    Duration(i128),
    Other,
}

/// A value a range yields.
#[derive(Debug, Clone, Copy, PartialEq, Eq, Structural)]
pub enum RangeValue {
    Int(i64),
    Date(i32),
    Instant(i128),
}

/// What an integer-stepped cursor yields.
#[derive(Debug, Clone, Copy, PartialEq, Eq, Structural)]
pub enum IntegerKind {
    Int,
    Date,
}

/// A range cursor: the next value, the end, whether the end is included,
/// and the step.
#[derive(Debug, Clone, Copy, PartialEq, Eq, Structural)]
pub struct RangeIter {
    cursor: Cursor,
}

#[derive(Debug, Clone, Copy, PartialEq, Eq, Structural)]
enum Cursor {
    Integer { current: i64, end: i64, inclusive: bool, step: i64, kind: IntegerKind },
    Instant { current: i128, end: i128, inclusive: bool, step: i128 },
}

impl RangeIter {
    /// The values the cursor has yet to yield.
    pub closed spec fn remaining(&self) -> Seq<int> {
        match self.cursor {
            Cursor::Integer { current, end, inclusive, step, .. } => progression(
                current as int,
                end as int,
                inclusive,
                step as int,
            ),
            Cursor::Instant { current, end, inclusive, step } => progression(
                current as int,
                end as int,
                inclusive,
                step as int,
            ),
        }
    }

    /// Whether the cursor yields dates.
    pub closed spec fn yields_dates(&self) -> bool {
        self.cursor matches Cursor::Integer { kind: IntegerKind::Date, .. }
    }

    /// Whether the cursor yields instants.
    pub closed spec fn yields_instants(&self) -> bool {
        self.cursor is Instant
    }

    /// Whether the next step of an instant cursor that is still inside its
    /// range leaves the `i128` instants.
    pub closed spec fn next_overflows(&self) -> bool {
        match self.cursor {
            Cursor::Instant { current, step, .. } => !(i128::MIN <= current + step <= i128::MAX),
            _ => false,
        }
    }

    /// A date cursor stays inside the `i32` days while it is inside its
    /// range.
    #[verifier::type_invariant]
    closed spec fn cursor_ok(&self) -> bool {
        match self.cursor {
            Cursor::Integer { current, end, inclusive, step, kind } => kind == IntegerKind::Date
                ==> (i32::MIN <= end <= i32::MAX && (range_within(
                current as int,
                end as int,
                inclusive,
                step as int,
            ) ==> i32::MIN <= current <= i32::MAX)),
            Cursor::Instant { .. } => true,
        }
    }

    /// The next value of the range, or `None` once it is done. An int or
    /// date cursor whose next step would leave the `i64` values is done after
    /// this value; an instant cursor whose next step would leave the `i128`
    /// instants fails with an overflow.
    pub fn next_value(&mut self) -> (r: Result<Option<RangeValue>, RangeError>)
        ensures
            match r {
                Ok(None) => old(self).remaining().len() == 0 && final(self).remaining().len() == 0,
                Ok(Some(v)) => {
                    &&& old(self).remaining().len() > 0
                    &&& !old(self).next_overflows()
                    &&& range_value_int(v) == old(self).remaining()[0]
                    &&& final(self).remaining() == old(self).remaining().drop_first()
                    &&& (v is Date <==> old(self).yields_dates())
                    &&& (v is Instant <==> old(self).yields_instants())
                },
                Err(e) => {
                    &&& e == RangeError::Overflow
                    &&& old(self).remaining().len() > 0
                    &&& old(self).next_overflows()
                },
            },
    {
        proof {
            use_type_invariant(&*self);
        }
        let this = self.cursor;
        match this {
            Cursor::Integer { current: c, end: e, inclusive: inc, step: s, kind: k } => {
                if !in_range(c as i128, e as i128, inc, direction_for(s as i128)) {
                    return Ok(None);
                }
                assert(range_within(c as int, e as int, inc, s as int));
                let value = match k {
                    IntegerKind::Int => RangeValue::Int(c),
                    IntegerKind::Date => RangeValue::Date(c as i32),
                };
                let ghost next = c + s;
                proof {
                    assert(progression(c as int, e as int, inc, s as int) == seq![c as int]
                        + progression(next, e as int, inc, s as int));
                }
                match c.checked_add(s) {
                    Some(n) => {
                        *self = RangeIter { cursor: Cursor::Integer { current: n, end: e, inclusive: inc, step: s, kind: k } };
                    },
                    None => {
                        proof {
                            assert(!range_within(next, e as int, inc, s as int));
                            assert(progression(next, e as int, inc, s as int) =~= Seq::<int>::empty());
                            assert(progression(c as int, e as int, inc, 0) =~= Seq::<int>::empty());
                        }
                        *self = RangeIter { cursor: Cursor::Integer { current: c, end: e, inclusive: inc, step: 0, kind: k } };
                    },
                }
                assert(seq![c as int] + progression(next, e as int, inc, s as int) =~= seq![c as int].add(
                    progression(next, e as int, inc, s as int),
                ));
                assert((seq![c as int] + progression(next, e as int, inc, s as int)).drop_first()
                    =~= progression(next, e as int, inc, s as int));
                Ok(Some(value))
            },
            Cursor::Instant { current: c, end: e, inclusive: inc, step: s } => {
                if !in_range(c, e, inc, direction_for(s)) {
                    return Ok(None);
                }
                let ghost next = c + s;
                proof {
                    assert(progression(c as int, e as int, inc, s as int) == seq![c as int]
                        + progression(next, e as int, inc, s as int));
                }
                match c.checked_add(s) {
                    Some(n) => {
                        *self = RangeIter { cursor: Cursor::Instant { current: n, end: e, inclusive: inc, step: s } };
                        assert((seq![c as int] + progression(next, e as int, inc, s as int)).drop_first()
                            =~= progression(next, e as int, inc, s as int));
                        Ok(Some(RangeValue::Instant(c)))
                    },
                    None => Err(RangeError::Overflow),
                }
            },
        }
    }
}

/// The number a range value stands for.
pub open spec fn range_value_int(v: RangeValue) -> int {
    match v {
        RangeValue::Int(n) => n as int,
        RangeValue::Date(d) => d as int,
        RangeValue::Instant(n) => n as int,
    }
}

/// A zero step is refused.
pub fn nonzero_range_step(step: i64) -> (r: Result<(), RangeError>)
    ensures
        r is Err <==> step == 0,
        r is Err ==> r == Err::<(), RangeError>(RangeError::ZeroStep),
{
    if step == 0 {
        return Err(RangeError::ZeroStep);
    }
    Ok(())
}

/// A duration as a whole number of days: refused when it is not whole, and
/// an overflow when the count leaves the `i64` values.
pub fn duration_whole_days(nanos: i128) -> (r: Result<i64, RangeError>)
    ensures
        match r {
            Ok(d) => (nanos as int) % (NANOS_PER_DAY as int) == 0 && d as int * NANOS_PER_DAY as int
                == nanos,
            Err(e) => ((nanos as int) % (NANOS_PER_DAY as int) != 0 && e == RangeError::StepNotWholeDays)
                || ((nanos as int) % (NANOS_PER_DAY as int) == 0 && !(i64::MIN <= (nanos as int) / (NANOS_PER_DAY as int) <= i64::MAX) && e == RangeError::Overflow),
        },
{
    if nanos % NANOS_PER_DAY != 0 {
        return Err(RangeError::StepNotWholeDays);
    }
    let days = nanos / NANOS_PER_DAY;
    if days < i64::MIN as i128 || days > i64::MAX as i128 {
        return Err(RangeError::Overflow);
    }
    Ok(days as i64)
}

/// A cursor over the ints from `start` to `end`, stepping by `step` (1 when
/// absent).
pub fn int_range_iter(start: i64, end: i64, step: Option<StepValue>, inclusive: bool) -> (r: Result<
    RangeIter,
    RangeError,
>)
    ensures
        match step {
            Some(StepValue::Int(n)) => if n == 0 {
                r == Err::<RangeIter, RangeError>(RangeError::ZeroStep)
            } else {
                r matches Ok(it) && it.remaining() == progression(
                    start as int,
                    end as int,
                    inclusive,
                    n as int,
                ) && !it.yields_dates() && !it.yields_instants()
            },
            Some(_) => r == Err::<RangeIter, RangeError>(RangeError::IntStepNotInt),
            None => r matches Ok(it) && it.remaining() == progression(
                start as int,
                end as int,
                inclusive,
                1,
            ) && !it.yields_dates() && !it.yields_instants(),
        },
{
    let n = match step {
        Some(StepValue::Int(n)) => n,
        Some(_) => return Err(RangeError::IntStepNotInt),
        None => 1,
    };
    if nonzero_range_step(n).is_err() {
        return Err(RangeError::ZeroStep);
    }
    Ok(RangeIter { cursor: Cursor::Integer { current: start, end, inclusive, step: n, kind: IntegerKind::Int } })
}

/// A cursor over the dates from `start` to `end` (days since the epoch),
/// stepping by a whole number of days (1 when absent).
pub fn date_range_iter(start: i32, end: i32, step: Option<StepValue>, inclusive: bool) -> (r: Result<
    RangeIter,
    RangeError,
>)
    ensures
        match step {
            Some(StepValue::Duration(nanos)) => if (nanos as int) % (NANOS_PER_DAY as int) != 0 {
                r == Err::<RangeIter, RangeError>(RangeError::StepNotWholeDays)
            } else if !(i64::MIN <= (nanos as int) / (NANOS_PER_DAY as int) <= i64::MAX) {
                r == Err::<RangeIter, RangeError>(RangeError::Overflow)
            } else if nanos == 0 {
                r == Err::<RangeIter, RangeError>(RangeError::ZeroStep)
            } else {
                r matches Ok(it) && it.remaining() == progression(
                    start as int,
                    end as int,
                    inclusive,
                    (nanos as int) / (NANOS_PER_DAY as int),
                ) && it.yields_dates()
            },
            Some(_) => r == Err::<RangeIter, RangeError>(RangeError::DateStepNotDuration),
            None => r matches Ok(it) && it.remaining() == progression(
                start as int,
                end as int,
                inclusive,
                1,
            ) && it.yields_dates(),
        },
{
    let n = match step {
        Some(StepValue::Duration(nanos)) => match duration_whole_days(nanos) {
            Ok(d) => d,
            Err(e) => return Err(e),
        },
        Some(_) => return Err(RangeError::DateStepNotDuration),
        None => 1,
    };
    if nonzero_range_step(n).is_err() {
        return Err(RangeError::ZeroStep);
    }
    Ok(
        RangeIter {
            cursor: Cursor::Integer {
                current: start as i64,
                end: end as i64,
                inclusive,
                step: n,
                kind: IntegerKind::Date,
            },
        },
    )
}

/// A cursor over the instants from `start` to `end`, stepping by an explicit
/// non-zero duration.
pub fn instant_range_iter(start: i128, end: i128, step: Option<StepValue>, inclusive: bool) -> (r: Result<
    RangeIter,
    RangeError,
>)
    ensures
        match step {
            Some(StepValue::Duration(nanos)) => if nanos == 0 {
                r == Err::<RangeIter, RangeError>(RangeError::ZeroStep)
            } else {
                r matches Ok(it) && it.remaining() == progression(
                    start as int,
                    end as int,
                    inclusive,
                    nanos as int,
                ) && it.yields_instants()
            },
            Some(_) => r == Err::<RangeIter, RangeError>(RangeError::InstantStepNotDuration),
            None => r == Err::<RangeIter, RangeError>(RangeError::InstantNeedsStep),
        },
{
    let s = match step {
        Some(StepValue::Duration(nanos)) => nanos,
        Some(_) => return Err(RangeError::InstantStepNotDuration),
        None => return Err(RangeError::InstantNeedsStep),
    };
    if s == 0 {
        return Err(RangeError::ZeroStep);
    }
    Ok(RangeIter { cursor: Cursor::Instant { current: start, end, inclusive, step: s } })
}

} // verus!
