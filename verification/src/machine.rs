//! The view state machine: owns the three-stage lifecycle of the
//! calculator (input, counting animation, result).
//!
//! `submit` validates an expression and either starts an animation
//! session or routes to the result view with an error message; `tick`
//! advances the count on the fixed cadence and emits one cue per newly
//! reached count; `reset` returns to the calculator from any state.
//! The session lives inside the `Animating` variant, so a session can
//! never exist without its view.

use vstd::prelude::*;
use crate::clock::{STEP_INTERVAL_MS, spec_step_due, is_step_due};
use crate::cue::cue_for;
use crate::decimal::{dec_digits, append_decimal};
use crate::parser::{parse, parse_ok, parse_err, operand1, operand2, ParseError};

verus! {

/// The number of limbs available for counting: ten fingers, ten toes.
pub const LIMB_LIMIT: u8 = 20;

/// The mutable record of an in-progress counting animation.
#[derive(Clone, Copy, PartialEq, Eq, Structural, Debug)]
pub struct AnimationSession {
    /// The left operand, as parsed from the input.
    pub operand1: u8,
    /// The right operand, as parsed from the input.
    pub operand2: u8,
    /// The sum being counted to; never above [`LIMB_LIMIT`].
    pub total: u8,
    /// How far the count has come, in `[0, total]`.
    pub current_count: u8,
    /// When the count last advanced (or the session started),
    /// in caller-clock milliseconds.
    pub last_step_time: u64,
}

/// Which of the three screens is active; the `Animating` variant
/// carries its session directly.
#[derive(Clone, Copy, PartialEq, Eq, Structural, Debug)]
pub enum AppView {
    Calculator,
    Animating(AnimationSession),
    Result,
}

/// The single owner of the view lifecycle.
pub struct ViewStateMachine {
    /// The active view, with the session when animating.
    pub current_view: AppView,
    /// The message shown on the result view; replaced wholesale on
    /// each attempt, empty initially and after a reset.
    pub result_text: String,
}

/// The success message: `"{op1} + {op2} = {total}"`.
pub open spec fn success_message(op1: nat, op2: nat, total: nat) -> Seq<char> {
    dec_digits(op1) + " + "@ + dec_digits(op2) + " = "@ + dec_digits(total)
}

/// The over-limit message, embedding the computed sum.
pub open spec fn over_limit_message(total: nat) -> Seq<char> {
    "Error: Sum ("@ + dec_digits(total) + ") is greater than 20. I've run out of limbs!"@
}

/// The message for an input with the wrong number of segments.
pub open spec fn format_error_message() -> Seq<char> {
    "Error: Use the format 'number+number'."@
}

/// The message for a segment that is not a valid number.
pub open spec fn number_error_message() -> Seq<char> {
    "Error: Invalid numbers."@
}

/// What one due step does to the count: one more until the total is
/// reached, then no further.
pub open spec fn count_after_step(count: nat, total: nat) -> nat {
    if count < total {
        count + 1
    } else {
        count
    }
}

/// The count after `n` due steps.
pub open spec fn count_after_steps(count: nat, total: nat, n: nat) -> nat
    decreases n,
{
    if n == 0 {
        count
    } else {
        count_after_step(count_after_steps(count, total, (n - 1) as nat), total)
    }
}

/// A session that starts at count zero stands at `min(n, total)` after
/// `n` due steps: each due [`ViewStateMachine::tick`] takes the count
/// through [`count_after_step`], so repeated due ticks walk the count
/// up by one per call and never past the total.
pub proof fn lemma_count_after_steps_from_zero(total: nat, n: nat)
    ensures
        count_after_steps(0, total, n) == if n <= total {
            n
        } else {
            total
        },
    decreases n,
{
    if n > 0 {
        lemma_count_after_steps_from_zero(total, (n - 1) as nat);
    }
}

impl ViewStateMachine {
    /// Well-formedness: an animation session counts two operands whose
    /// sum is its total, the total never exceeds the available limbs,
    /// and the count never runs past the total.
    pub open spec fn wf(self) -> bool {
        self.current_view matches AppView::Animating(s) ==> s.operand1 + s.operand2 == s.total
            && s.total <= LIMB_LIMIT && s.current_count <= s.total
    }

    /// A fresh machine: calculator view, no session, empty message.
    pub fn new() -> (m: ViewStateMachine)
        ensures
            m.wf(),
            m.current_view == AppView::Calculator,
            m.result_text@ == Seq::<char>::empty(),
    {
        ViewStateMachine { current_view: AppView::Calculator, result_text: String::new() }
    }

    /// Submits a raw expression, at time `now` on the caller's clock.
    ///
    /// On a valid expression whose sum is within the limb limit, a new
    /// session starts (count zero, timer at `now`) and the view turns
    /// to `Animating`. Any other input routes to the `Result` view:
    /// an over-limit sum with the message embedding that sum, a
    /// malformed expression with the format-error message, and an
    /// invalid number with the number-error message.
    pub fn submit(&mut self, raw: &str, now: u64)
        requires
            old(self).wf(),
            old(self).current_view is Calculator,
        ensures
            final(self).wf(),
            parse_ok(raw@) && operand1(raw@) + operand2(raw@) <= LIMB_LIMIT ==> (
            final(self).current_view == AppView::Animating(
                AnimationSession {
                    operand1: operand1(raw@) as u8,
                    operand2: operand2(raw@) as u8,
                    total: (operand1(raw@) + operand2(raw@)) as u8,
                    current_count: 0,
                    last_step_time: now,
                },
            ) && final(self).result_text == old(self).result_text),
            parse_ok(raw@) && operand1(raw@) + operand2(raw@) > LIMB_LIMIT ==> (
            final(self).current_view == AppView::Result && final(self).result_text@
                == over_limit_message(operand1(raw@) + operand2(raw@))),
            !parse_ok(raw@) && parse_err(raw@) == ParseError::FormatError ==> (
            final(self).current_view == AppView::Result && final(self).result_text@
                == format_error_message()),
            !parse_ok(raw@) && parse_err(raw@) == ParseError::NumberError ==> (
            final(self).current_view == AppView::Result && final(self).result_text@
                == number_error_message()),
    {
        match parse(raw) {
            Err(ParseError::FormatError) => {
                self.result_text = String::from_str("Error: Use the format 'number+number'.");
                self.current_view = AppView::Result;
            },
            Err(ParseError::NumberError) => {
                self.result_text = String::from_str("Error: Invalid numbers.");
                self.current_view = AppView::Result;
            },
            Ok((a, b)) => {
                let total: u128 = a as u128 + b as u128;
                if total > LIMB_LIMIT as u128 {
                    let mut msg = String::from_str("Error: Sum (");
                    append_decimal(&mut msg, total);
                    msg.append(") is greater than 20. I've run out of limbs!");
                    proof {
                        assert(msg@ =~= over_limit_message((a + b) as nat));
                    }
                    self.result_text = msg;
                    self.current_view = AppView::Result;
                } else {
                    self.current_view = AppView::Animating(
                        AnimationSession {
                            operand1: a as u8,
                            operand2: b as u8,
                            total: total as u8,
                            current_count: 0,
                            last_step_time: now,
                        },
                    );
                }
            },
        }
    }

    /// Advances the animation by one frame, at time `now` on the
    /// caller's clock.
    ///
    /// Nothing happens before the step interval has elapsed. Once it
    /// has: if the count has not reached the total, the count advances
    /// by one, the timer restarts at `now`, and the cue for the new
    /// count is returned; if the count has reached the total, the
    /// session ends, the view turns to `Result`, and the message
    /// states the sum. The count never decreases and never passes the
    /// total.
    pub fn tick(&mut self, now: u64) -> (cue: Option<u8>)
        requires
            old(self).wf(),
            old(self).current_view is Animating,
        ensures
            final(self).wf(),
            ({
                let s = old(self).current_view->Animating_0;
                &&& !spec_step_due(s.last_step_time, now, STEP_INTERVAL_MS) ==> (*final(self)
                    == *old(self) && cue is None)
                &&& spec_step_due(s.last_step_time, now, STEP_INTERVAL_MS)
                    && s.current_count < s.total ==> (final(self).current_view
                    == AppView::Animating(
                    AnimationSession {
                        operand1: s.operand1,
                        operand2: s.operand2,
                        total: s.total,
                        current_count: (s.current_count + 1) as u8,
                        last_step_time: now,
                    },
                ) && final(self).result_text == old(self).result_text && cue == Some(
                    (s.current_count + 1) as u8,
                ))
                &&& spec_step_due(s.last_step_time, now, STEP_INTERVAL_MS)
                    && s.current_count == s.total ==> (final(self).current_view == AppView::Result
                    && final(self).result_text@ == success_message(
                    s.operand1 as nat,
                    s.operand2 as nat,
                    s.total as nat,
                ) && cue is None)
            }),
            final(self).current_view matches AppView::Animating(after) ==> {
                let s = old(self).current_view->Animating_0;
                after.total == s.total && s.current_count <= after.current_count <= after.total
            },
            spec_step_due(
                old(self).current_view->Animating_0.last_step_time,
                now,
                STEP_INTERVAL_MS,
            ) && (final(self).current_view matches AppView::Animating(after))
                ==> final(self).current_view->Animating_0.current_count == count_after_step(
                old(self).current_view->Animating_0.current_count as nat,
                old(self).current_view->Animating_0.total as nat,
            ),
    {
        let view = self.current_view;
        match view {
            AppView::Animating(s) => {
                if is_step_due(s.last_step_time, now, STEP_INTERVAL_MS) {
                    if s.current_count < s.total {
                        let new_count = s.current_count + 1;
                        let cue = cue_for(new_count, s.total);
                        self.current_view = AppView::Animating(
                            AnimationSession {
                                operand1: s.operand1,
                                operand2: s.operand2,
                                total: s.total,
                                current_count: new_count,
                                last_step_time: now,
                            },
                        );
                        Some(cue)
                    } else {
                        let mut msg = String::new();
                        append_decimal(&mut msg, s.operand1 as u128);
                        msg.append(" + ");
                        append_decimal(&mut msg, s.operand2 as u128);
                        msg.append(" = ");
                        append_decimal(&mut msg, s.total as u128);
                        proof {
                            assert(msg@ =~= success_message(
                                s.operand1 as nat,
                                s.operand2 as nat,
                                s.total as nat,
                            ));
                        }
                        self.result_text = msg;
                        self.current_view = AppView::Result;
                        None
                    }
                } else {
                    None
                }
            },
            _ => {
                proof {
                    assert(false);
                }
                None
            },
        }
    }

    /// Returns to the calculator view, discarding any session and
    /// clearing the message. Valid in every state; the only way to
    /// leave the result view.
    pub fn reset(&mut self)
        ensures
            final(self).wf(),
            final(self).current_view == AppView::Calculator,
            final(self).result_text@ == Seq::<char>::empty(),
    {
        self.current_view = AppView::Calculator;
        self.result_text = String::new();
    }

    /// Whether the caller should keep delivering frames (and so keep
    /// calling [`Self::tick`]): true exactly while animating.
    pub fn needs_further_ticks(&self) -> (animating: bool)
        ensures
            animating == (self.current_view is Animating),
    {
        match self.current_view {
            AppView::Animating(_) => true,
            _ => false,
        }
    }

    /// Read-only access to the active session, if one exists.
    pub fn session(&self) -> (s: Option<AnimationSession>)
        ensures
            match self.current_view {
                AppView::Animating(active) => s == Some(active),
                _ => s is None,
            },
    {
        match self.current_view {
            AppView::Animating(active) => Some(active),
            _ => None,
        }
    }

    /// Read-only access to the result message.
    pub fn result_text(&self) -> (text: &String)
        ensures
            text@ == self.result_text@,
    {
        &self.result_text
    }
}

} // verus!
