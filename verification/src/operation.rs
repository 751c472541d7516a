use vstd::prelude::*;
use crate::error::{ErrorCode, OperationError, fails_as};

verus! {

/// The stages a flashing operation goes through.
#[derive(Debug, Clone, Copy, PartialEq, Eq, Structural)]
pub enum OperationStage {
    Idle,
    Validating,
    Detecting,
    Connecting,
    Erasing,
    Writing,
    Verifying,
    Resetting,
    Monitoring,
    Passed,
    Failed,
    Disconnected,
}

/// The stages in which an operation is under way.
pub open spec fn stage_is_active(stage: OperationStage) -> bool {
    match stage {
        OperationStage::Validating | OperationStage::Detecting | OperationStage::Connecting
        | OperationStage::Erasing | OperationStage::Writing | OperationStage::Verifying
        | OperationStage::Resetting | OperationStage::Monitoring => true,
        _ => false,
    }
}

/// The transitions an operation may take: forward through validation,
/// detection, connection, an optional erase, writing, verification, reset and
/// monitoring to a verdict, then disconnection and back to idle.
pub open spec fn transition_allowed(current: OperationStage, next: OperationStage) -> bool {
    match (current, next) {
        (OperationStage::Idle, OperationStage::Validating) => true,
        (OperationStage::Validating, OperationStage::Detecting) => true,
        (OperationStage::Detecting, OperationStage::Connecting) => true,
        (OperationStage::Connecting, OperationStage::Erasing) => true,
        (OperationStage::Connecting, OperationStage::Writing) => true,
        (OperationStage::Erasing, OperationStage::Writing) => true,
        (OperationStage::Writing, OperationStage::Verifying) => true,
        (OperationStage::Verifying, OperationStage::Resetting) => true,
        (OperationStage::Resetting, OperationStage::Monitoring) => true,
        (OperationStage::Monitoring, OperationStage::Passed) => true,
        (OperationStage::Monitoring, OperationStage::Failed) => true,
        (OperationStage::Passed, OperationStage::Disconnected) => true,
        (OperationStage::Failed, OperationStage::Disconnected) => true,
        (OperationStage::Disconnected, OperationStage::Idle) => true,
        _ => false,
    }
}

/// The debug name of a stage.
pub open spec fn stage_name(stage: OperationStage) -> Seq<char> {
    match stage {
        OperationStage::Idle => "Idle"@,
        OperationStage::Validating => "Validating"@,
        OperationStage::Detecting => "Detecting"@,
        OperationStage::Connecting => "Connecting"@,
        OperationStage::Erasing => "Erasing"@,
        OperationStage::Writing => "Writing"@,
        OperationStage::Verifying => "Verifying"@,
        OperationStage::Resetting => "Resetting"@,
        OperationStage::Monitoring => "Monitoring"@,
        OperationStage::Passed => "Passed"@,
        OperationStage::Failed => "Failed"@,
        OperationStage::Disconnected => "Disconnected"@,
    }
}

impl OperationStage {
    pub fn is_active(self) -> (b: bool)
        ensures
            b == stage_is_active(self),
    {
        match self {
            OperationStage::Validating | OperationStage::Detecting | OperationStage::Connecting
            | OperationStage::Erasing | OperationStage::Writing | OperationStage::Verifying
            | OperationStage::Resetting | OperationStage::Monitoring => true,
            _ => false,
        }
    }

    pub fn name(self) -> (s: &'static str)
        ensures
            s@ == stage_name(self),
    {
        match self {
            OperationStage::Idle => "Idle",
            OperationStage::Validating => "Validating",
            OperationStage::Detecting => "Detecting",
            OperationStage::Connecting => "Connecting",
            OperationStage::Erasing => "Erasing",
            OperationStage::Writing => "Writing",
            OperationStage::Verifying => "Verifying",
            OperationStage::Resetting => "Resetting",
            OperationStage::Monitoring => "Monitoring",
            OperationStage::Passed => "Passed",
            OperationStage::Failed => "Failed",
            OperationStage::Disconnected => "Disconnected",
        }
    }
}

pub fn is_allowed(current: OperationStage, next: OperationStage) -> (b: bool)
    ensures
        b == transition_allowed(current, next),
{
    match (current, next) {
        (OperationStage::Idle, OperationStage::Validating) => true,
        (OperationStage::Validating, OperationStage::Detecting) => true,
        (OperationStage::Detecting, OperationStage::Connecting) => true,
        (OperationStage::Connecting, OperationStage::Erasing) => true,
        (OperationStage::Connecting, OperationStage::Writing) => true,
        (OperationStage::Erasing, OperationStage::Writing) => true,
        (OperationStage::Writing, OperationStage::Verifying) => true,
        (OperationStage::Verifying, OperationStage::Resetting) => true,
        (OperationStage::Resetting, OperationStage::Monitoring) => true,
        (OperationStage::Monitoring, OperationStage::Passed) => true,
        (OperationStage::Monitoring, OperationStage::Failed) => true,
        (OperationStage::Passed, OperationStage::Disconnected) => true,
        (OperationStage::Failed, OperationStage::Disconnected) => true,
        (OperationStage::Disconnected, OperationStage::Idle) => true,
        _ => false,
    }
}

/// The stage of one operation, moved only along allowed transitions.
#[derive(Debug, Clone, PartialEq, Eq)]
pub struct OperationStateMachine {
    stage: OperationStage,
}

impl OperationStateMachine {
    /// The current stage.
    pub closed spec fn current(&self) -> OperationStage {
        self.stage
    }

    /// A machine in the idle stage.
    pub fn new() -> (m: OperationStateMachine)
        ensures
            m.current() == OperationStage::Idle,
    {
        OperationStateMachine { stage: OperationStage::Idle }
    }

    pub fn stage(&self) -> (s: OperationStage)
        ensures
            s == self.current(),
    {
        self.stage
    }

    /// Moves to `next` when the transition is allowed; otherwise keeps the
    /// stage and reports the refused transition.
    pub fn transition(&mut self, next: OperationStage) -> (r: Result<(), OperationError>)
        ensures
            (r is Ok) == transition_allowed(old(self).current(), next),
            r is Ok ==> final(self).current() == next,
            r matches Err(e) ==> {
                &&& final(self).current() == old(self).current()
                &&& fails_as(e, (ErrorCode::InvalidState, "Недопустимый переход состояния операции"@))
                &&& e.detail matches Some(d) && d@ == stage_name(old(self).current()) + " -> "@
                    + stage_name(next)
            },
    {
        if is_allowed(self.stage, next) {
            self.stage = next;
            Ok(())
        } else {
            let mut detail = String::from_str(self.stage.name());
            detail.append(" -> ");
            detail.append(next.name());
            Err(
                OperationError::new(
                    ErrorCode::InvalidState,
                    "Недопустимый переход состояния операции",
                ).with_detail(detail),
            )
        }
    }

    /// Ends an active operation as failed; an inactive one is left as it is.
    pub fn fail(&mut self) -> (r: Result<(), OperationError>)
        ensures
            (r is Ok) == stage_is_active(old(self).current()),
            r is Ok ==> final(self).current() == OperationStage::Failed,
            r matches Err(e) ==> {
                &&& final(self).current() == old(self).current()
                &&& fails_as(
                    e,
                    (ErrorCode::InvalidState, "Неактивную операцию нельзя завершить ошибкой"@),
                )
                &&& e.detail is None
            },
    {
        if self.stage.is_active() {
            self.stage = OperationStage::Failed;
            Ok(())
        } else {
            Err(
                OperationError::new(
                    ErrorCode::InvalidState,
                    "Неактивную операцию нельзя завершить ошибкой",
                ),
            )
        }
    }
}

impl Default for OperationStateMachine {
    fn default() -> (m: OperationStateMachine)
        ensures
            m.current() == OperationStage::Idle,
    {
        OperationStateMachine::new()
    }
}

/// Every verdict leads back to idle: from `Passed` or `Failed` (the stage that
/// `fail` leaves an active operation in) the operation disconnects and then
/// returns to `Idle`, and a verdict is no longer an operation under way.
pub proof fn lemma_verdict_returns_to_idle(verdict: OperationStage)
    requires
        verdict == OperationStage::Passed || verdict == OperationStage::Failed,
    ensures
        transition_allowed(verdict, OperationStage::Disconnected),
        transition_allowed(OperationStage::Disconnected, OperationStage::Idle),
        !stage_is_active(verdict),
{
}

/// Writing is always followed by verification: no allowed transition skips
/// from writing to anything but verifying, and verifying can only be reached
/// from writing.
pub proof fn lemma_writes_are_verified(current: OperationStage, next: OperationStage)
    ensures
        transition_allowed(OperationStage::Writing, next) ==> next == OperationStage::Verifying,
        transition_allowed(current, OperationStage::Verifying) ==> current == OperationStage::Writing,
{
}

/// One move of the machine: an allowed transition, or failing an active
/// operation.
pub open spec fn machine_step(from: OperationStage, to: OperationStage) -> bool {
    transition_allowed(from, to) || (stage_is_active(from) && to == OperationStage::Failed)
}

/// The stages a machine goes through from [`OperationStateMachine::new`]:
/// idle first, then one move ([`OperationStateMachine::transition`] or
/// [`OperationStateMachine::fail`]) at a time.
pub open spec fn is_run(s: Seq<OperationStage>) -> bool {
    &&& s.len() > 0
    &&& s[0] == OperationStage::Idle
    &&& forall|i: int| 1 <= i < s.len() ==> machine_step(s[i - 1], #[trigger] s[i])
}

/// A run writes only right after validating, detecting and connecting since
/// it was last idle, with an optional erase between connecting and writing.
pub proof fn lemma_run_writes_after_connecting(s: Seq<OperationStage>)
    requires
        is_run(s),
        s.last() == OperationStage::Writing,
    ensures
        ({
            let n = s.len() as int;
            ||| n >= 5 && s.subrange(n - 5, n) == seq![
                OperationStage::Idle,
                OperationStage::Validating,
                OperationStage::Detecting,
                OperationStage::Connecting,
                OperationStage::Writing,
            ]
            ||| n >= 6 && s.subrange(n - 6, n) == seq![
                OperationStage::Idle,
                OperationStage::Validating,
                OperationStage::Detecting,
                OperationStage::Connecting,
                OperationStage::Erasing,
                OperationStage::Writing,
            ]
        }),
{
    let n = s.len() as int;
    assert(n >= 2);
    assert(machine_step(s[n - 2], s[n - 1]));
    let mut c = n - 2;
    if s[n - 2] == OperationStage::Erasing {
        assert(n >= 3);
        assert(machine_step(s[n - 3], s[n - 2]));
        c = n - 3;
    }
    assert(s[c] == OperationStage::Connecting);
    assert(c >= 1);
    assert(machine_step(s[c - 1], s[c]));
    assert(s[c - 1] == OperationStage::Detecting);
    assert(c - 1 >= 1);
    assert(machine_step(s[c - 2], s[c - 1]));
    assert(s[c - 2] == OperationStage::Validating);
    assert(c - 2 >= 1);
    assert(machine_step(s[c - 3], s[c - 2]));
    assert(s[c - 3] == OperationStage::Idle);
    if c == n - 2 {
        assert(s.subrange(n - 5, n) =~= seq![
            OperationStage::Idle,
            OperationStage::Validating,
            OperationStage::Detecting,
            OperationStage::Connecting,
            OperationStage::Writing,
        ]);
    } else {
        assert(s.subrange(n - 6, n) =~= seq![
            OperationStage::Idle,
            OperationStage::Validating,
            OperationStage::Detecting,
            OperationStage::Connecting,
            OperationStage::Erasing,
            OperationStage::Writing,
        ]);
    }
}

/// A run passes only through every stage in order since it was last idle:
/// validating, detecting, connecting, an optional erase, writing,
/// verifying, resetting and monitoring.
pub proof fn lemma_run_passes_in_order(s: Seq<OperationStage>)
    requires
        is_run(s),
        s.last() == OperationStage::Passed,
    ensures
        ({
            let n = s.len() as int;
            ||| n >= 9 && s.subrange(n - 9, n) == seq![
                OperationStage::Idle,
                OperationStage::Validating,
                OperationStage::Detecting,
                OperationStage::Connecting,
                OperationStage::Writing,
                OperationStage::Verifying,
                OperationStage::Resetting,
                OperationStage::Monitoring,
                OperationStage::Passed,
            ]
            ||| n >= 10 && s.subrange(n - 10, n) == seq![
                OperationStage::Idle,
                OperationStage::Validating,
                OperationStage::Detecting,
                OperationStage::Connecting,
                OperationStage::Erasing,
                OperationStage::Writing,
                OperationStage::Verifying,
                OperationStage::Resetting,
                OperationStage::Monitoring,
                OperationStage::Passed,
            ]
        }),
{
    let n = s.len() as int;
    assert(n >= 2);
    assert(machine_step(s[n - 2], s[n - 1]));
    assert(s[n - 2] == OperationStage::Monitoring);
    assert(machine_step(s[n - 3], s[n - 2]));
    assert(s[n - 3] == OperationStage::Resetting);
    assert(machine_step(s[n - 4], s[n - 3]));
    assert(s[n - 4] == OperationStage::Verifying);
    assert(machine_step(s[n - 5], s[n - 4]));
    assert(s[n - 5] == OperationStage::Writing);
    let w = s.subrange(0, n - 4);
    assert(w.last() == OperationStage::Writing);
    assert forall|i: int| 1 <= i < w.len() implies machine_step(w[i - 1], #[trigger] w[i]) by {
        assert(w[i - 1] == s[i - 1] && w[i] == s[i]);
    }
    lemma_run_writes_after_connecting(w);
    let m = w.len() as int;
    if m >= 5 && w.subrange(m - 5, m) == seq![
        OperationStage::Idle,
        OperationStage::Validating,
        OperationStage::Detecting,
        OperationStage::Connecting,
        OperationStage::Writing,
    ] {
        assert(w.subrange(m - 5, m)[0] == s[n - 9]);
        assert(w.subrange(m - 5, m)[1] == s[n - 8]);
        assert(w.subrange(m - 5, m)[2] == s[n - 7]);
        assert(w.subrange(m - 5, m)[3] == s[n - 6]);
        assert(s.subrange(n - 9, n) =~= seq![
            OperationStage::Idle,
            OperationStage::Validating,
            OperationStage::Detecting,
            OperationStage::Connecting,
            OperationStage::Writing,
            OperationStage::Verifying,
            OperationStage::Resetting,
            OperationStage::Monitoring,
            OperationStage::Passed,
        ]);
    } else {
        assert(w.subrange(m - 6, m)[0] == s[n - 10]);
        assert(w.subrange(m - 6, m)[1] == s[n - 9]);
        assert(w.subrange(m - 6, m)[2] == s[n - 8]);
        assert(w.subrange(m - 6, m)[3] == s[n - 7]);
        assert(w.subrange(m - 6, m)[4] == s[n - 6]);
        assert(s.subrange(n - 10, n) =~= seq![
            OperationStage::Idle,
            OperationStage::Validating,
            OperationStage::Detecting,
            OperationStage::Connecting,
            OperationStage::Erasing,
            OperationStage::Writing,
            OperationStage::Verifying,
            OperationStage::Resetting,
            OperationStage::Monitoring,
            OperationStage::Passed,
        ]);
    }
}

} // verus!
