//! Planning and sequencing the hardware operations of a command.
//!
//! A command turns into an ordered plan of per-pin operations. A hardware
//! layer carries the operations out one at a time and reports each outcome
//! back; the dispatcher hands out the next operation only while nothing has
//! failed, so a failure stops the pass with every earlier pin left as it was
//! just configured.

use vstd::prelude::*;
use crate::command::{Command, CommandView};
use crate::errors::HardwareError;
use crate::tokens::{LogicValue, PinMode, PullMode};

verus! {

/// What is to be done with one pin.
#[derive(Clone, Copy, Debug, PartialEq, Eq)]
pub enum PinAction {
    /// Put the pin in output mode; when `drive` is set, drive it to that level.
    Output { drive: Option<LogicValue> },
    /// Put the pin in input mode with the given bias, or unbiased without one.
    Input { pull: Option<PullMode> },
}

/// One step of a dispatch pass.
#[derive(Clone, Copy, Debug, PartialEq, Eq)]
pub struct PinOp {
    /// The pin the step acquires and configures.
    pub pin: u8,
    /// Whether the pin reverts to its prior state when its handle is dropped.
    pub reset_on_drop: bool,
    /// The configuration the step applies.
    pub action: PinAction,
}

/// The pin list a command names.
pub open spec fn spec_cmd_pins(c: CommandView) -> Seq<u8> {
    match c {
        CommandView::Setup { pins, .. } => pins,
        CommandView::Test { pins, .. } => pins,
    }
}

/// The ordered operations that dispatching a command performs: one per pin,
/// in the order the pins were given.
pub open spec fn spec_plan(c: CommandView) -> Seq<PinOp> {
    match c {
        CommandView::Test { value, pins, reset_on_drop } => pins.map_values(
            |p: u8| PinOp {
                pin: p,
                reset_on_drop: reset_on_drop,
                action: PinAction::Output { drive: Some(value) },
            },
        ),
        CommandView::Setup { mode, pins, reset_on_drop, pull } => match mode {
            PinMode::Output => pins.map_values(
                |p: u8| PinOp {
                    pin: p,
                    reset_on_drop: reset_on_drop,
                    action: PinAction::Output { drive: None },
                },
            ),
            PinMode::Input => pins.map_values(
                |p: u8| PinOp {
                    pin: p,
                    reset_on_drop: reset_on_drop,
                    action: PinAction::Input { pull: pull },
                },
            ),
        },
    }
}

/// The plan touches exactly the command's pins, in the order they were given,
/// and applies to each the one configuration the command asks for.
pub proof fn lemma_plan_follows_command(c: CommandView)
    ensures
        spec_plan(c).len() == spec_cmd_pins(c).len(),
        forall|i: int|
            0 <= i < spec_plan(c).len() ==> #[trigger] spec_plan(c)[i].pin == spec_cmd_pins(c)[i],
        forall|i: int|
            0 <= i < spec_plan(c).len() ==> #[trigger] spec_plan(c)[i].action == (match c {
                CommandView::Test { value, .. } => PinAction::Output { drive: Some(value) },
                CommandView::Setup { mode: PinMode::Output, .. } => PinAction::Output {
                    drive: None,
                },
                CommandView::Setup { mode: PinMode::Input, pull, .. } => PinAction::Input {
                    pull: pull,
                },
            }),
        forall|i: int|
            0 <= i < spec_plan(c).len() ==> #[trigger] spec_plan(c)[i].reset_on_drop == (match c {
                CommandView::Test { reset_on_drop, .. } => reset_on_drop,
                CommandView::Setup { reset_on_drop, .. } => reset_on_drop,
            }),
{
}

/// Builds the ordered operation plan of a command.
pub fn plan(c: &Command) -> (r: Vec<PinOp>)
    ensures
        r@ == spec_plan(c@),
{
    let mut r: Vec<PinOp> = Vec::new();
    match c {
        Command::Test { value, pins, reset_on_drop } => {
            let mut k: usize = 0;
            while k < pins.len()
                invariant
                    0 <= k <= pins@.len(),
                    c@ matches CommandView::Test { value: v, pins: ps, reset_on_drop: rd }
                        && v == *value && ps == pins@ && rd == *reset_on_drop,
                    r@.len() == k,
                    forall|m: int| 0 <= m < k ==> r@[m] == spec_plan(c@)[m],
                decreases pins@.len() - k,
            {
                r.push(PinOp {
                    pin: pins[k],
                    reset_on_drop: *reset_on_drop,
                    action: PinAction::Output { drive: Some(*value) },
                });
                k = k + 1;
            }
        },
        Command::Setup { mode, pins, reset_on_drop, pull } => {
            let mut k: usize = 0;
            while k < pins.len()
                invariant
                    0 <= k <= pins@.len(),
                    c@ matches CommandView::Setup { mode: m, pins: ps, reset_on_drop: rd, pull: pl }
                        && m == *mode && ps == pins@ && rd == *reset_on_drop && pl == *pull,
                    r@.len() == k,
                    forall|m: int| 0 <= m < k ==> r@[m] == spec_plan(c@)[m],
                decreases pins@.len() - k,
            {
                let action = match mode {
                    PinMode::Output => PinAction::Output { drive: None },
                    PinMode::Input => PinAction::Input { pull: *pull },
                };
                r.push(PinOp { pin: pins[k], reset_on_drop: *reset_on_drop, action: action });
                k = k + 1;
            }
        },
    }
    proof {
        assert(r@ =~= spec_plan(c@));
    }
    r
}

/// Walks a plan against the hardware: hands out operations in order and is
/// told how each one went, refusing to go on past the first failure.
pub struct Dispatcher {
    plan: Vec<PinOp>,
    next: usize,
    failure: Option<HardwareError>,
}

impl Dispatcher {
    /// The dispatcher never points past the end of its plan.
    pub closed spec fn wf(&self) -> bool {
        self.next <= self.plan@.len()
    }

    /// The full plan being walked.
    pub closed spec fn plan_view(&self) -> Seq<PinOp> {
        self.plan@
    }

    /// How many operations have been reported successful.
    pub closed spec fn spec_done_count(&self) -> int {
        self.next as int
    }

    /// The failure reported so far, if any.
    pub closed spec fn spec_failure(&self) -> Option<HardwareError> {
        self.failure
    }

    /// The operation the dispatcher hands out next: the first one not yet
    /// done, and none at all once anything has failed.
    pub closed spec fn spec_next_op(&self) -> Option<PinOp> {
        if self.failure is None && self.next < self.plan@.len() {
            Some(self.plan@[self.next as int])
        } else {
            None
        }
    }

    /// The operations attempted so far: the done ones, plus the failed one.
    pub closed spec fn attempted(&self) -> Seq<PinOp> {
        if self.failure is Some {
            self.plan@.take(self.next + 1)
        } else {
            self.plan@.take(self.next as int)
        }
    }

    /// Starts a dispatch pass over the command's plan.
    pub fn new(c: &Command) -> (d: Dispatcher)
        ensures
            d.wf(),
            d.plan_view() == spec_plan(c@),
            d.spec_done_count() == 0,
            d.spec_failure() is None,
            d.attempted() == Seq::<PinOp>::empty(),
    {
        let p = plan(c);
        proof {
            assert(p@.take(0) =~= Seq::<PinOp>::empty());
        }
        Dispatcher { plan: p, next: 0, failure: None }
    }

    /// The operation to perform next, or nothing when the pass is over —
    /// every operation done, or one of them failed.
    pub fn next_op(&self) -> (r: Option<PinOp>)
        requires
            self.wf(),
        ensures
            r == self.spec_next_op(),
    {
        if self.failure.is_none() && self.next < self.plan.len() {
            Some(self.plan[self.next])
        } else {
            None
        }
    }

    /// Records that the operation just handed out succeeded: exactly that
    /// operation is appended to the attempted ones, and the walk goes on.
    pub fn report_success(&mut self)
        requires
            old(self).wf(),
            old(self).spec_next_op() is Some,
        ensures
            final(self).wf(),
            final(self).plan_view() == old(self).plan_view(),
            final(self).spec_failure() is None,
            final(self).spec_done_count() == old(self).spec_done_count() + 1,
            final(self).attempted() == old(self).attempted().push(old(self).spec_next_op()->Some_0),
    {
        proof {
            assert(self.plan@.take(self.next + 1) =~= self.plan@.take(self.next as int).push(
                self.plan@[self.next as int],
            ));
        }
        let n = self.plan.len();
        proof {
            assert(self.next < n);
        }
        self.next = self.next + 1;
    }

    /// Records that the operation just handed out failed: it still counts as
    /// attempted, and no further operation is ever handed out.
    pub fn report_failure(&mut self, e: HardwareError)
        requires
            old(self).wf(),
            old(self).spec_next_op() is Some,
        ensures
            final(self).wf(),
            final(self).plan_view() == old(self).plan_view(),
            final(self).spec_failure() == Some(e),
            final(self).spec_done_count() == old(self).spec_done_count(),
            final(self).spec_next_op() is None,
            final(self).attempted() == old(self).attempted().push(old(self).spec_next_op()->Some_0),
    {
        proof {
            assert(self.plan@.take(self.next + 1) =~= self.plan@.take(self.next as int).push(
                self.plan@[self.next as int],
            ));
        }
        self.failure = Some(e);
    }

    /// The outcome of a finished pass: the failure if one was reported, and
    /// success only when every planned operation was attempted and succeeded.
    pub fn outcome(&self) -> (r: Result<(), HardwareError>)
        requires
            self.wf(),
            self.spec_next_op() is None,
        ensures
            r == (match self.spec_failure() {
                Some(e) => Err::<(), HardwareError>(e),
                None => Ok::<(), HardwareError>(()),
            }),
            r is Ok ==> self.attempted() == self.plan_view(),
    {
        proof {
            if self.failure is None {
                assert(self.plan@.take(self.plan@.len() as int) =~= self.plan@);
            }
        }
        match self.failure {
            Some(e) => Err(e),
            None => Ok(()),
        }
    }
}

/// The operations a whole pass attempts when the hardware outcome of the
/// attempt on plan entry `i` is `ok[i]`: each operation in plan order, going
/// on only while the outcomes stay good.
pub open spec fn spec_attempted_ops(plan: Seq<PinOp>, ok: Seq<bool>) -> Seq<PinOp>
    decreases plan.len(),
{
    if plan.len() == 0 {
        Seq::empty()
    } else if ok.len() > 0 && ok[0] {
        seq![plan[0]] + spec_attempted_ops(plan.skip(1), ok.skip(1))
    } else {
        seq![plan[0]]
    }
}

/// Fail-fast without rollback: when the attempt on plan entry `k` is the
/// first to fail, the pass attempts exactly the plan's first `k + 1`
/// operations — the `k` pins before the failing one are configured and left
/// so, and no later pin is touched.
pub proof fn lemma_dispatch_fail_fast(plan: Seq<PinOp>, ok: Seq<bool>, k: int)
    requires
        0 <= k < plan.len(),
        k < ok.len(),
        !ok[k],
        forall|i: int| 0 <= i < k ==> ok[i],
    ensures
        spec_attempted_ops(plan, ok) == plan.take(k + 1),
    decreases k,
{
    if k == 0 {
        assert(plan.take(1) =~= seq![plan[0]]);
    } else {
        assert(ok[0]);
        lemma_dispatch_fail_fast(plan.skip(1), ok.skip(1), k - 1);
        assert(spec_attempted_ops(plan, ok) == seq![plan[0]] + plan.skip(1).take(k));
        assert(plan.take(k + 1) =~= seq![plan[0]] + plan.skip(1).take(k));
    }
}

/// A pass whose every attempt succeeds carries out the whole plan.
pub proof fn lemma_dispatch_all_succeed(plan: Seq<PinOp>, ok: Seq<bool>)
    requires
        ok.len() >= plan.len(),
        forall|i: int| 0 <= i < plan.len() ==> ok[i],
    ensures
        spec_attempted_ops(plan, ok) == plan,
    decreases plan.len(),
{
    if plan.len() > 0 {
        lemma_dispatch_all_succeed(plan.skip(1), ok.skip(1));
        assert(plan =~= seq![plan[0]] + plan.skip(1));
    }
}

} // verus!
