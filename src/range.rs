//! The range descriptor, its pull cursor and its factory.

use vstd::prelude::*;

use crate::decimal::{int_text, push_int};

verus! {

/// The abstract state of a range: the descriptor and the cursor position.
pub struct RangeState {
    pub start: int,
    pub stop: int,
    pub step: int,
    pub inclusive: bool,
    pub cursor: int,
}

/// What one pull of the cursor yields.
pub enum Pull {
    /// The next value of the traversal.
    Value(int),
    /// The end of one traversal; the cursor is back at `start`.
    Done,
    /// The next value would leave the range of `i32`; the cursor is back at `start`.
    Overflow,
}

/// A supplied step of zero stands for a step of one.
pub open spec fn normalized_step(step: int) -> int {
    if step == 0 {
        1
    } else {
        step
    }
}

/// The state of a range freshly made from these arguments.
pub open spec fn initial_state(start: int, stop: int, step: int, inclusive: bool) -> RangeState {
    RangeState { start, stop, step: normalized_step(step), inclusive, cursor: start }
}

/// Whether `c` may still be produced: it lies before `stop`, or on it when inclusive.
pub open spec fn eligible(s: RangeState, c: int) -> bool {
    if s.inclusive {
        c <= s.stop
    } else {
        c < s.stop
    }
}

/// One pull: what it yields and the state after it.
pub open spec fn pull(s: RangeState) -> (Pull, RangeState) {
    if !eligible(s, s.cursor) {
        (Pull::Done, RangeState { cursor: s.start, ..s })
    } else if s.cursor < i32::MIN {
        (Pull::Overflow, RangeState { cursor: s.start, ..s })
    } else {
        (Pull::Value(s.cursor), RangeState { cursor: s.cursor + s.step, ..s })
    }
}

/// The state after `n` pulls.
pub open spec fn after_pulls(s: RangeState, n: nat) -> RangeState
    decreases n,
{
    if n == 0 {
        s
    } else {
        pull(after_pulls(s, (n - 1) as nat)).1
    }
}

/// What `n` successive pulls yield, in order.
pub open spec fn pulls(s: RangeState, n: nat) -> Seq<Pull>
    decreases n,
{
    if n == 0 {
        Seq::empty()
    } else {
        pulls(s, (n - 1) as nat).push(pull(after_pulls(s, (n - 1) as nat)).0)
    }
}

/// The last element under the unit-step convention: `stop`, or `stop - 1` when exclusive.
pub open spec fn last_of(s: RangeState) -> int {
    if s.inclusive {
        s.stop
    } else {
        s.stop - 1
    }
}

/// The result envelope of one pull, in the `{ value, done }` shape of an iterator protocol.
#[derive(Clone, Copy, Debug, PartialEq, Eq, Structural)]
pub struct JsIteratorResult {
    pub value: Option<i32>,
    pub done: bool,
}

/// The failures of building or traversing a range.
#[derive(Clone, Copy, Debug, PartialEq, Eq, Structural)]
pub enum RangeError {
    /// `start` lies after `stop`.
    InvalidRange { start: i32, stop: i32 },
    /// The cursor would leave the range of `i32`.
    ArithmeticOverflow,
}

/// How a pull is reported to the caller of `Range::next`.
pub open spec fn reports(r: Result<JsIteratorResult, RangeError>, p: Pull) -> bool {
    match p {
        Pull::Value(v) => r == Ok::<JsIteratorResult, RangeError>(
            JsIteratorResult { value: Some(v as i32), done: false },
        ),
        Pull::Done => r == Ok::<JsIteratorResult, RangeError>(
            JsIteratorResult { value: None, done: true },
        ),
        Pull::Overflow => r == Err::<JsIteratorResult, RangeError>(RangeError::ArithmeticOverflow),
    }
}

/// The textual form: `start..stop` or `start..=stop`, then `{step}` when the step is not one.
pub open spec fn range_text(s: RangeState) -> Seq<char> {
    int_text(s.start) + (if s.inclusive {
        seq!['.', '.', '=']
    } else {
        seq!['.', '.']
    }) + int_text(s.stop) + (if s.step == 1 {
        Seq::empty()
    } else {
        seq!['{'] + int_text(s.step) + seq!['}']
    })
}

/// The message of each error.
pub open spec fn error_text(e: RangeError) -> Seq<char> {
    match e {
        RangeError::InvalidRange { start, stop } => "Cannot create a range from "@ + int_text(
            start as int,
        ) + " to "@ + int_text(stop as int),
        RangeError::ArithmeticOverflow => "Arithmetic overflow while stepping the range"@,
    }
}

impl RangeError {
    /// A human-readable message naming the offending bounds.
    pub fn message(&self) -> (r: String)
        ensures
            r@ == error_text(*self),
    {
        match self {
            RangeError::InvalidRange { start, stop } => {
                let mut out = String::from_str("Cannot create a range from ");
                push_int(&mut out, *start);
                out.append(" to ");
                push_int(&mut out, *stop);
                out
            },
            RangeError::ArithmeticOverflow => String::from_str(
                "Arithmetic overflow while stepping the range",
            ),
        }
    }
}

/// An integer range `start..stop` (or `start..=stop`) walked by `step`, with its own cursor.
pub struct Range {
    start: i32,
    stop: i32,
    step: i32,
    inclusive: bool,
    cursor: i64,
}

impl View for Range {
    type V = RangeState;

    closed spec fn view(&self) -> RangeState {
        RangeState {
            start: self.start as int,
            stop: self.stop as int,
            step: self.step as int,
            inclusive: self.inclusive,
            cursor: self.cursor as int,
        }
    }
}

impl Range {
    /// The step is never zero, and the cursor is at most one step outside `i32`.
    #[verifier::type_invariant]
    spec fn inv(&self) -> bool {
        &&& self.step != 0
        &&& 2 * (i32::MIN as int) <= self.cursor <= 2 * (i32::MAX as int)
    }

    /// Builds the range; a step of zero is stored as one.
    pub fn new(start: i32, stop: i32, step: i32, inclusive: bool) -> (r: Range)
        ensures
            r@ == initial_state(start as int, stop as int, step as int, inclusive),
    {
        Range { start, stop, step: if step != 0 { step } else { 1 }, inclusive, cursor: start as i64 }
    }

    pub fn start(&self) -> (r: i32)
        ensures
            r as int == self@.start,
    {
        self.start
    }

    pub fn stop(&self) -> (r: i32)
        ensures
            r as int == self@.stop,
    {
        self.stop
    }

    /// The stored step, never zero.
    pub fn step(&self) -> (r: i32)
        ensures
            r as int == self@.step,
            r != 0,
    {
        proof {
            use_type_invariant(self);
        }
        self.step
    }

    pub fn is_inclusive(&self) -> (r: bool)
        ensures
            r == self@.inclusive,
    {
        self.inclusive
    }

    /// The first candidate value, `start`.
    pub fn first(&self) -> (r: i32)
        ensures
            r as int == self@.start,
    {
        self.start
    }

    /// `stop` when inclusive, else `stop - 1`, whatever the step.
    pub fn last(&self) -> (r: i64)
        ensures
            r as int == last_of(self@),
    {
        if self.inclusive {
            self.stop as i64
        } else {
            self.stop as i64 - 1
        }
    }

    /// The textual form, as `range_text` describes it.
    pub fn to_string(&self) -> (r: String)
        ensures
            r@ == range_text(self@),
    {
        let mut out = String::new();
        push_int(&mut out, self.start);
        if self.inclusive {
            proof {
                reveal_strlit("..=");
            }
            out.append("..=");
        } else {
            proof {
                reveal_strlit("..");
            }
            out.append("..");
        }
        push_int(&mut out, self.stop);
        if self.step != 1 {
            proof {
                reveal_strlit("{");
                reveal_strlit("}");
            }
            out.append("{");
            push_int(&mut out, self.step);
            out.append("}");
        }
        proof {
            assert(out@ =~= range_text(self@));
        }
        out
    }

    /// Pulls the next value; at the end of a traversal the cursor goes back to `start`.
    pub fn next(&mut self) -> (r: Result<JsIteratorResult, RangeError>)
        ensures
            reports(r, pull(old(self)@).0),
            final(self)@ == pull(old(self)@).1,
    {
        proof {
            use_type_invariant(&*self);
        }
        let in_bounds = if self.inclusive {
            self.cursor <= self.stop as i64
        } else {
            self.cursor < self.stop as i64
        };
        if !in_bounds {
            self.cursor = self.start as i64;
            return Ok(JsIteratorResult { value: None, done: true });
        }
        if self.cursor < i32::MIN as i64 {
            self.cursor = self.start as i64;
            return Err(RangeError::ArithmeticOverflow);
        }
        let value = self.cursor as i32;
        self.cursor = self.cursor + self.step as i64;
        Ok(JsIteratorResult { value: Some(value), done: false })
    }
}

/// Builds a range, refusing one whose `start` lies after its `stop`.
pub fn range(start: i32, stop: i32, step: i32, inclusive: bool) -> (r: Result<Range, RangeError>)
    ensures
        start <= stop ==> r is Ok && r->Ok_0@ == initial_state(
            start as int,
            stop as int,
            step as int,
            inclusive,
        ),
        start > stop ==> r is Err && r->Err_0 == (RangeError::InvalidRange { start, stop }),
{
    if start > stop {
        return Err(RangeError::InvalidRange { start, stop });
    }
    Ok(Range::new(start, stop, step, inclusive))
}

} // verus!
