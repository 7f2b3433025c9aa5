//! Lifecycle states and their generation-guarded transitions.
use crate::decimal::{decimal, render_u64};
use crate::error::{failure, EngineError, ErrorCode, ErrorView};
use crate::text::{cat3, cat5, opt_text, text_eq};
use vstd::prelude::*;

verus! {

/// Stored-state retention policy for a sandbox.
#[derive(Clone, Copy, Debug, PartialEq, Eq, Structural)]
pub enum PersistencePolicy {
    Persistent,
    Sticky { priority: u8 },
    Ephemeral,
}

/// The priority of a sticky sandbox that names none.
pub fn default_sticky_priority() -> (r: u8)
    ensures
        r == 5,
{
    5
}

impl Default for PersistencePolicy {
    fn default() -> (r: PersistencePolicy)
        ensures
            r == PersistencePolicy::Persistent,
    {
        PersistencePolicy::Persistent
    }
}

impl PersistencePolicy {
    pub fn sticky_priority(&self) -> (r: Option<u8>)
        ensures
            r == match *self {
                PersistencePolicy::Sticky { priority } => Some(priority),
                _ => None,
            },
    {
        match self {
            PersistencePolicy::Sticky { priority } => Some(*priority),
            _ => None,
        }
    }
}

/// A lifecycle state, known by its lower-case name.
///
/// Unknown values round-trip exactly so a newer control plane cannot be
/// downgraded into a destructive state by an older monitor.
#[derive(Debug)]
pub enum LifecyclePhase {
    Running,
    Stopped,
    Suspended,
    Paused,
    Terminated,
    Unknown(String),
}

/// The value of a [`LifecyclePhase`].
pub enum PhaseView {
    Running,
    Stopped,
    Suspended,
    Paused,
    Terminated,
    Unknown(Seq<char>),
}

impl View for LifecyclePhase {
    type V = PhaseView;

    open spec fn view(&self) -> PhaseView {
        match self {
            LifecyclePhase::Running => PhaseView::Running,
            LifecyclePhase::Stopped => PhaseView::Stopped,
            LifecyclePhase::Suspended => PhaseView::Suspended,
            LifecyclePhase::Paused => PhaseView::Paused,
            LifecyclePhase::Terminated => PhaseView::Terminated,
            LifecyclePhase::Unknown(s) => PhaseView::Unknown(s@),
        }
    }
}

/// The name of a phase.
pub open spec fn phase_text(p: PhaseView) -> Seq<char> {
    match p {
        PhaseView::Running => "running"@,
        PhaseView::Stopped => "stopped"@,
        PhaseView::Suspended => "suspended"@,
        PhaseView::Paused => "paused"@,
        PhaseView::Terminated => "terminated"@,
        PhaseView::Unknown(s) => s,
    }
}

/// The phase of a name.
pub open spec fn phase_of(s: Seq<char>) -> PhaseView {
    if s == "running"@ {
        PhaseView::Running
    } else if s == "stopped"@ {
        PhaseView::Stopped
    } else if s == "suspended"@ {
        PhaseView::Suspended
    } else if s == "paused"@ {
        PhaseView::Paused
    } else if s == "terminated"@ {
        PhaseView::Terminated
    } else {
        PhaseView::Unknown(s)
    }
}

impl LifecyclePhase {
    /// Return the stable JSON spelling of this phase.
    pub fn as_str(&self) -> (r: &str)
        ensures
            r@ == phase_text(self@),
    {
        match self {
            LifecyclePhase::Running => "running",
            LifecyclePhase::Stopped => "stopped",
            LifecyclePhase::Suspended => "suspended",
            LifecyclePhase::Paused => "paused",
            LifecyclePhase::Terminated => "terminated",
            LifecyclePhase::Unknown(value) => value.as_str(),
        }
    }

    /// The phase of a JSON spelling.
    pub fn from_str(value: &str) -> (r: LifecyclePhase)
        ensures
            r@ == phase_of(value@),
    {
        if text_eq(value, "running") {
            LifecyclePhase::Running
        } else if text_eq(value, "stopped") {
            LifecyclePhase::Stopped
        } else if text_eq(value, "suspended") {
            LifecyclePhase::Suspended
        } else if text_eq(value, "paused") {
            LifecyclePhase::Paused
        } else if text_eq(value, "terminated") {
            LifecyclePhase::Terminated
        } else {
            LifecyclePhase::Unknown(value.to_owned())
        }
    }

    /// Whether both are the same phase.
    pub fn same(&self, other: &LifecyclePhase) -> (r: bool)
        ensures
            r == (self@ == other@),
    {
        match (self, other) {
            (LifecyclePhase::Running, LifecyclePhase::Running) => true,
            (LifecyclePhase::Stopped, LifecyclePhase::Stopped) => true,
            (LifecyclePhase::Suspended, LifecyclePhase::Suspended) => true,
            (LifecyclePhase::Paused, LifecyclePhase::Paused) => true,
            (LifecyclePhase::Terminated, LifecyclePhase::Terminated) => true,
            (LifecyclePhase::Unknown(a), LifecyclePhase::Unknown(b)) => text_eq(a.as_str(), b.as_str()),
            _ => false,
        }
    }
}

impl Clone for LifecyclePhase {
    fn clone(&self) -> (r: LifecyclePhase)
        ensures
            r@ == self@,
    {
        match self {
            LifecyclePhase::Running => LifecyclePhase::Running,
            LifecyclePhase::Stopped => LifecyclePhase::Stopped,
            LifecyclePhase::Suspended => LifecyclePhase::Suspended,
            LifecyclePhase::Paused => LifecyclePhase::Paused,
            LifecyclePhase::Terminated => LifecyclePhase::Terminated,
            LifecyclePhase::Unknown(s) => LifecyclePhase::Unknown(s.clone()),
        }
    }
}

impl Default for LifecyclePhase {
    fn default() -> (r: LifecyclePhase)
        ensures
            r@ == PhaseView::Stopped,
    {
        LifecyclePhase::Stopped
    }
}

/// Every name, known or not, reads back as itself.
pub proof fn law_phase_names_survive(s: Seq<char>)
    ensures
        phase_text(phase_of(s)) == s,
{
}

/// Every phase that was read from a name reads back as itself from the name that
/// it is written with.
pub proof fn law_read_phase_survives(s: Seq<char>)
    ensures
        phase_of(phase_text(phase_of(s))) == phase_of(s),
{
}

/// Monotonic lifecycle write version used to reject stale completers.
#[derive(Clone, Copy, Debug, PartialEq, Eq, PartialOrd, Ord, Structural)]
pub struct StateGeneration(pub u64);

/// A durable operation that remains pending even when desired and observed
/// phases happen to be equal.
#[derive(Debug)]
pub enum LifecycleOperation {
    /// Materialize and switch to the exact durable recovery point.
    Rollback { recovery_point: String },
    /// Forward-compatible operation marker for non-state-changing work.
    Other { kind: String },
}

/// The value of a [`LifecycleOperation`].
pub enum OperationView {
    Rollback { recovery_point: Seq<char> },
    Other { kind: Seq<char> },
}

impl View for LifecycleOperation {
    type V = OperationView;

    open spec fn view(&self) -> OperationView {
        match self {
            LifecycleOperation::Rollback { recovery_point } => OperationView::Rollback {
                recovery_point: recovery_point@,
            },
            LifecycleOperation::Other { kind } => OperationView::Other { kind: kind@ },
        }
    }
}

impl LifecycleOperation {
    /// Stable operation name for reconciliation logs and metrics.
    pub fn kind(&self) -> (r: &str)
        ensures
            r@ == match self@ {
                OperationView::Rollback { .. } => "rollback"@,
                OperationView::Other { kind } => kind,
            },
    {
        match self {
            LifecycleOperation::Rollback { .. } => "rollback",
            LifecycleOperation::Other { kind } => kind.as_str(),
        }
    }
}

impl Clone for LifecycleOperation {
    fn clone(&self) -> (r: LifecycleOperation)
        ensures
            r@ == self@,
    {
        match self {
            LifecycleOperation::Rollback { recovery_point } => LifecycleOperation::Rollback {
                recovery_point: recovery_point.clone(),
            },
            LifecycleOperation::Other { kind } => LifecycleOperation::Other { kind: kind.clone() },
        }
    }
}

/// The value of an optional operation.
pub open spec fn opt_operation(o: Option<LifecycleOperation>) -> Option<OperationView> {
    match o {
        Some(x) => Some(x@),
        None => None,
    }
}

/// Whether both are the same operation, or none.
pub fn same_operation(a: &Option<LifecycleOperation>, b: &Option<LifecycleOperation>) -> (r: bool)
    ensures
        r == (opt_operation(*a) == opt_operation(*b)),
{
    match (a, b) {
        (None, None) => true,
        (
            Some(LifecycleOperation::Rollback { recovery_point: x }),
            Some(LifecycleOperation::Rollback { recovery_point: y }),
        ) => text_eq(x.as_str(), y.as_str()),
        (Some(LifecycleOperation::Other { kind: x }), Some(LifecycleOperation::Other { kind: y })) => text_eq(
            x.as_str(),
            y.as_str(),
        ),
        _ => false,
    }
}

fn clone_operation(o: &Option<LifecycleOperation>) -> (r: Option<LifecycleOperation>)
    ensures
        opt_operation(r) == opt_operation(*o),
{
    match o {
        Some(x) => Some(x.clone()),
        None => None,
    }
}

/// Durable desired/observed lifecycle state.
#[derive(Debug)]
pub struct LifecycleState {
    pub desired: LifecyclePhase,
    pub observed: LifecyclePhase,
    pub generation: StateGeneration,
    pub operation: Option<LifecycleOperation>,
    pub failure: Option<String>,
}

/// The value of a [`LifecycleState`].
pub struct LifecycleView {
    pub desired: PhaseView,
    pub observed: PhaseView,
    pub generation: StateGeneration,
    pub operation: Option<OperationView>,
    pub failure: Option<Seq<char>>,
}

impl View for LifecycleState {
    type V = LifecycleView;

    open spec fn view(&self) -> LifecycleView {
        LifecycleView {
            desired: self.desired@,
            observed: self.observed@,
            generation: self.generation,
            operation: opt_operation(self.operation),
            failure: opt_text(self.failure),
        }
    }
}

/// The state of a sandbox that was never started.
pub open spec fn fresh_lifecycle() -> LifecycleView {
    LifecycleView {
        desired: PhaseView::Stopped,
        observed: PhaseView::Stopped,
        generation: StateGeneration(0),
        operation: None,
        failure: None,
    }
}

impl Default for LifecycleState {
    fn default() -> (r: LifecycleState)
        ensures
            r@ == fresh_lifecycle(),
    {
        LifecycleState {
            desired: LifecyclePhase::Stopped,
            observed: LifecyclePhase::Stopped,
            generation: StateGeneration(0),
            operation: None,
            failure: None,
        }
    }
}

impl Clone for LifecycleState {
    fn clone(&self) -> (r: LifecycleState)
        ensures
            r@ == self@,
    {
        LifecycleState {
            desired: self.desired.clone(),
            observed: self.observed.clone(),
            generation: self.generation,
            operation: clone_operation(&self.operation),
            failure: match &self.failure {
                Some(f) => Some(f.clone()),
                None => None,
            },
        }
    }
}

/// Whether nothing is left to do.
pub open spec fn converged(l: LifecycleView) -> bool {
    l.operation is None && l.failure is None && l.desired == l.observed
}

impl LifecycleState {
    /// Whether an operation still needs lifecycle reconciliation.
    pub fn is_converged(&self) -> (r: bool)
        ensures
            r == converged(self@),
    {
        self.operation.is_none() && self.failure.is_none() && self.desired.same(&self.observed)
    }
}

/// The generation and target returned by a successful transition begin/retry.
#[derive(Debug)]
pub struct LifecycleTransition {
    pub generation: StateGeneration,
    pub desired: LifecyclePhase,
    pub observed: LifecyclePhase,
}

/// Whether a caller owns the side effects for a requested transition.
#[derive(Clone, Copy, Debug, PartialEq, Eq, Structural)]
pub enum TransitionDisposition {
    /// This call durably installed a new generation and owns execution.
    Acquired,
    /// Another caller already owns the same non-converged generation.
    Joined,
    /// The requested state has already converged.
    AlreadyObserved,
}

/// Ownership-fenced result of starting a lifecycle transition.
#[derive(Debug)]
pub struct TransitionBegin {
    pub disposition: TransitionDisposition,
    pub generation: StateGeneration,
    pub desired: LifecyclePhase,
    pub observed: LifecyclePhase,
    pub operation: Option<LifecycleOperation>,
}

/// What a transition result says of a lifecycle.
pub open spec fn describes(t: LifecycleTransition, l: LifecycleView) -> bool {
    t.generation == l.generation && t.desired@ == l.desired && t.observed@ == l.observed
}

/// What a begin result says of a lifecycle.
pub open spec fn announces(b: TransitionBegin, l: LifecycleView, disposition: TransitionDisposition) -> bool {
    b.disposition == disposition && b.generation == l.generation && b.desired@ == l.desired && b.observed@
        == l.observed && opt_operation(b.operation) == l.operation
}

/// The transition that `lifecycle` is in.
pub fn transition_of(lifecycle: &LifecycleState) -> (r: LifecycleTransition)
    ensures
        describes(r, lifecycle@),
{
    LifecycleTransition {
        generation: lifecycle.generation,
        desired: lifecycle.desired.clone(),
        observed: lifecycle.observed.clone(),
    }
}

pub fn begin_of(lifecycle: &LifecycleState, disposition: TransitionDisposition) -> (r: TransitionBegin)
    ensures
        announces(r, lifecycle@, disposition),
{
    TransitionBegin {
        disposition,
        generation: lifecycle.generation,
        desired: lifecycle.desired.clone(),
        observed: lifecycle.observed.clone(),
        operation: clone_operation(&lifecycle.operation),
    }
}

/// The status under which a sandbox is shown; a paused one counts as running.
pub open spec fn status_of(observed: PhaseView) -> Seq<char> {
    match observed {
        PhaseView::Paused => "running"@,
        p => phase_text(p),
    }
}

pub fn status_for_observed(observed: &LifecyclePhase) -> (r: &str)
    ensures
        r@ == status_of(observed@),
{
    match observed {
        LifecyclePhase::Paused => "running",
        phase => phase.as_str(),
    }
}

/// What a sandbox is seen to be, given whether its process lives.
pub open spec fn seen_with_process(observed: PhaseView, alive: bool) -> PhaseView {
    match observed {
        PhaseView::Stopped | PhaseView::Suspended | PhaseView::Terminated => if alive {
            PhaseView::Running
        } else {
            observed
        },
        PhaseView::Running | PhaseView::Paused => if alive {
            observed
        } else {
            PhaseView::Stopped
        },
        PhaseView::Unknown(_) => observed,
    }
}

/// Brings the observed phase in line with whether the process lives; says
/// whether that changed it.
pub fn normalize_observed_for_pid(lifecycle: &mut LifecycleState, pid_alive: bool) -> (r: bool)
    ensures
        final(lifecycle)@ == (LifecycleView {
            observed: seen_with_process(old(lifecycle)@.observed, pid_alive),
            ..old(lifecycle)@
        }),
        r == (final(lifecycle)@.observed != old(lifecycle)@.observed),
{
    if pid_alive {
        match &lifecycle.observed {
            LifecyclePhase::Stopped | LifecyclePhase::Suspended | LifecyclePhase::Terminated => {},
            _ => return false,
        }
        lifecycle.observed = LifecyclePhase::Running;
        true
    } else {
        match &lifecycle.observed {
            LifecyclePhase::Running | LifecyclePhase::Paused => {},
            _ => return false,
        }
        lifecycle.observed = LifecyclePhase::Stopped;
        true
    }
}

/// The error that a caller knows an outdated generation.
pub open spec fn stale(id: Seq<char>, expected: StateGeneration, actual: StateGeneration) -> ErrorView {
    failure(
        ErrorCode::Invalid,
        "stale lifecycle generation for '"@ + id + "': expected "@ + decimal(expected.0 as nat) + ", found "@
            + decimal(actual.0 as nat),
    )
}

pub fn stale_generation(id: &str, expected: StateGeneration, actual: StateGeneration) -> (r: EngineError)
    ensures
        r@ == stale(id@, expected, actual),
{
    let mut message = cat5(
        "stale lifecycle generation for '",
        id,
        "': expected ",
        render_u64(expected.0).as_str(),
        ", found ",
    );
    message.append(render_u64(actual.0).as_str());
    EngineError::invalid(message)
}

/// The error that no further generation can be counted.
pub open spec fn exhausted(id: Seq<char>) -> ErrorView {
    failure(ErrorCode::Invalid, "lifecycle generation exhausted for '"@ + id + "'"@)
}

fn exhausted_generation(id: &str) -> (r: EngineError)
    ensures
        r@ == exhausted(id@),
{
    EngineError::invalid(cat3("lifecycle generation exhausted for '", id, "'"))
}

/// The error that another transition has not finished.
pub open spec fn still_pending(id: Seq<char>) -> ErrorView {
    failure(ErrorCode::Invalid, "lifecycle transition for '"@ + id + "' is still pending"@)
}

/// The lifecycle in its next generation, without a failure.
pub open spec fn next_generation(l: LifecycleView) -> LifecycleView {
    LifecycleView { generation: StateGeneration((l.generation.0 + 1) as u64), failure: None, ..l }
}

/// What a request for a transition comes to.
pub enum BeginOutcome {
    /// The lifecycle stays; the disposition says how the caller stands.
    Stays(TransitionDisposition),
    /// The caller acquired the transition; this is the new lifecycle.
    Acquired(LifecycleView),
    Refused(ErrorView),
}

/// What the request of a caller that knows generation `expected` comes to, on the
/// sandbox `id` with the lifecycle `l`.
pub open spec fn begun(
    id: Seq<char>,
    l: LifecycleView,
    expected: StateGeneration,
    desired: PhaseView,
    operation: Option<OperationView>,
) -> BeginOutcome {
    let same_target = l.desired == desired && l.operation == operation;
    let successor = if expected.0 == u64::MAX {
        expected
    } else {
        StateGeneration((expected.0 + 1) as u64)
    };
    if l.generation == expected && same_target && l.failure is None {
        BeginOutcome::Stays(
            if converged(l) {
                TransitionDisposition::AlreadyObserved
            } else {
                TransitionDisposition::Joined
            },
        )
    } else if l.generation == successor && same_target && l.failure is None && !converged(l) {
        BeginOutcome::Stays(TransitionDisposition::Joined)
    } else if l.generation != expected {
        BeginOutcome::Refused(stale(id, expected, l.generation))
    } else if same_target && l.failure is Some {
        if expected.0 == u64::MAX {
            BeginOutcome::Refused(exhausted(id))
        } else {
            BeginOutcome::Acquired(next_generation(l))
        }
    } else if !converged(l) {
        BeginOutcome::Refused(still_pending(id))
    } else if expected.0 == u64::MAX {
        BeginOutcome::Refused(exhausted(id))
    } else {
        BeginOutcome::Acquired(LifecycleView { desired, operation, ..next_generation(l) })
    }
}

/// What came of a request: how the caller stands, and the new lifecycle where
/// there is one.
pub struct Begun {
    pub begin: TransitionBegin,
    pub lifecycle: Option<LifecycleState>,
}

/// Whether `b` is what `outcome` says, on the lifecycle `l`.
pub open spec fn begins_as(b: Begun, l: LifecycleView, outcome: BeginOutcome) -> bool {
    match outcome {
        BeginOutcome::Stays(disposition) => announces(b.begin, l, disposition) && b.lifecycle is None,
        BeginOutcome::Acquired(next) => announces(b.begin, next, TransitionDisposition::Acquired)
            && b.lifecycle is Some && b.lifecycle->0@ == next,
        BeginOutcome::Refused(_) => false,
    }
}

/// The lifecycle once its operation failed; nothing where that is known.
pub open spec fn failing(l: LifecycleView, error: Seq<char>) -> Option<LifecycleView> {
    if l.failure == Some(error) {
        None
    } else {
        Some(LifecycleView { failure: Some(error), ..l })
    }
}

/// The lifecycle once its failed operation is tried again; nothing where none failed.
pub open spec fn retried(l: LifecycleView) -> Option<LifecycleView> {
    if l.failure is None {
        None
    } else {
        Some(next_generation(l))
    }
}

impl LifecycleState {
    /// Begins a generation-guarded transition.
    ///
    /// Repeating a request that already installed the same pending target is
    /// idempotent, including when its caller only knows the prior generation.
    pub fn begin(
        &self,
        id: &str,
        expected: StateGeneration,
        desired: LifecyclePhase,
        operation: Option<LifecycleOperation>,
    ) -> (r: Result<Begun, EngineError>)
        ensures
            match r {
                Ok(b) => begins_as(b, self@, begun(id@, self@, expected, desired@, opt_operation(operation))),
                Err(e) => begun(id@, self@, expected, desired@, opt_operation(operation))
                    == BeginOutcome::Refused(e@),
            },
    {
        let same_target = self.desired.same(&desired) && same_operation(&self.operation, &operation);
        let current = self.generation.0 == expected.0;
        if current && same_target && self.failure.is_none() {
            let disposition = if self.is_converged() {
                TransitionDisposition::AlreadyObserved
            } else {
                TransitionDisposition::Joined
            };
            return Ok(Begun { begin: begin_of(self, disposition), lifecycle: None });
        }
        let successor: u64 = expected.0.saturating_add(1);
        if self.generation.0 == successor && same_target && self.failure.is_none() && !self.is_converged() {
            return Ok(Begun { begin: begin_of(self, TransitionDisposition::Joined), lifecycle: None });
        }
        if !current {
            return Err(stale_generation(id, expected, self.generation));
        }
        if same_target && self.failure.is_some() {
            if expected.0 == u64::MAX {
                return Err(exhausted_generation(id));
            }
            let next = self.succeeded();
            return Ok(
                Begun { begin: begin_of(&next, TransitionDisposition::Acquired), lifecycle: Some(next) },
            );
        }
        if !self.is_converged() {
            return Err(EngineError::invalid(cat3("lifecycle transition for '", id, "' is still pending")));
        }
        if expected.0 == u64::MAX {
            return Err(exhausted_generation(id));
        }
        let mut next = self.succeeded();
        next.desired = desired;
        next.operation = operation;
        Ok(Begun { begin: begin_of(&next, TransitionDisposition::Acquired), lifecycle: Some(next) })
    }

    fn succeeded(&self) -> (r: LifecycleState)
        requires
            self@.generation.0 < u64::MAX,
        ensures
            r@ == next_generation(self@),
    {
        let mut next = self.clone();
        next.generation = StateGeneration(self.generation.0 + 1);
        next.failure = None;
        next
    }

    /// Takes an observation of generation `generation`. `None` says that it was
    /// known already.
    pub fn observe(&self, id: &str, generation: StateGeneration, observed: LifecyclePhase) -> (r: Result<
        Option<LifecycleState>,
        EngineError,
    >)
        ensures
            match r {
                Ok(next) => self@.generation == generation && opt_lifecycle(next) == observation(
                    self@,
                    observed@,
                ),
                Err(e) => self@.generation != generation && e@ == stale(id@, generation, self@.generation),
            },
    {
        if self.generation.0 != generation.0 {
            return Err(stale_generation(id, generation, self.generation));
        }
        if self.observed.same(&observed) && self.failure.is_none() && self.operation.is_none() {
            return Ok(None);
        }
        let mut next = self.clone();
        next.observed = observed;
        next.operation = None;
        next.failure = None;
        Ok(Some(next))
    }

    /// Notes that an attempt failed, without losing what has to be tried again.
    /// `None` says that the same failure was noted already.
    pub fn fail(&self, id: &str, generation: StateGeneration, error: String) -> (r: Result<
        Option<LifecycleState>,
        EngineError,
    >)
        ensures
            match r {
                Ok(next) => self@.generation == generation && opt_lifecycle(next) == failing(self@, error@),
                Err(e) => self@.generation != generation && e@ == stale(id@, generation, self@.generation),
            },
    {
        if self.generation.0 != generation.0 {
            return Err(stale_generation(id, generation, self.generation));
        }
        let known = match &self.failure {
            Some(f) => text_eq(f.as_str(), error.as_str()),
            None => false,
        };
        if known {
            return Ok(None);
        }
        let mut next = self.clone();
        next.failure = Some(error);
        Ok(Some(next))
    }

    /// Gives a transition up in favour of what was observed. `known` says whether
    /// the same reason was recorded before; `None` then says that nothing changed.
    pub fn cancel(&self, id: &str, generation: StateGeneration, observed: LifecyclePhase, known: bool) -> (r:
        Result<Option<LifecycleState>, EngineError>)
        ensures
            match r {
                Ok(next) => self@.generation == generation && opt_lifecycle(next) == cancellation(
                    self@,
                    observed@,
                    known,
                ),
                Err(e) => self@.generation != generation && e@ == stale(id@, generation, self@.generation),
            },
    {
        if self.generation.0 != generation.0 {
            return Err(stale_generation(id, generation, self.generation));
        }
        if self.is_converged() && self.observed.same(&observed) && known {
            return Ok(None);
        }
        let mut next = self.clone();
        next.desired = observed.clone();
        next.observed = observed;
        next.operation = None;
        next.failure = None;
        Ok(Some(next))
    }

    /// Claims an interrupted transition for reconciliation.
    ///
    /// A resumed generation fences delayed completers from the crashed owner,
    /// while retaining its desired state and pending operation payload.
    pub fn resume(&self, id: &str, generation: StateGeneration) -> (r: Result<Begun, EngineError>)
        ensures
            match r {
                Ok(b) => begins_as(b, self@, resumed(id@, self@, generation)),
                Err(e) => resumed(id@, self@, generation) == BeginOutcome::Refused(e@),
            },
    {
        if self.generation.0 != generation.0 {
            return Err(stale_generation(id, generation, self.generation));
        }
        if self.is_converged() {
            return Ok(
                Begun { begin: begin_of(self, TransitionDisposition::AlreadyObserved), lifecycle: None },
            );
        }
        if generation.0 == u64::MAX {
            return Err(exhausted_generation(id));
        }
        let next = self.succeeded();
        Ok(Begun { begin: begin_of(&next, TransitionDisposition::Acquired), lifecycle: Some(next) })
    }

    /// Starts the next generation for a failed transition. `None` says that it has
    /// not failed.
    pub fn retry(&self, id: &str, generation: StateGeneration) -> (r: Result<
        Option<LifecycleState>,
        EngineError,
    >)
        ensures
            match r {
                Ok(next) => self@.generation == generation && (self@.failure is Some ==> generation.0
                    < u64::MAX) && opt_lifecycle(next) == retried(self@),
                Err(e) => e@ == if self@.generation != generation {
                    stale(id@, generation, self@.generation)
                } else {
                    exhausted(id@)
                } && (self@.generation == generation ==> self@.failure is Some && generation.0 == u64::MAX),
            },
    {
        if self.generation.0 != generation.0 {
            return Err(stale_generation(id, generation, self.generation));
        }
        if self.failure.is_none() {
            return Ok(None);
        }
        if generation.0 == u64::MAX {
            return Err(exhausted_generation(id));
        }
        Ok(Some(self.succeeded()))
    }
}

/// The value of an optional lifecycle.
pub open spec fn opt_lifecycle(o: Option<LifecycleState>) -> Option<LifecycleView> {
    match o {
        Some(l) => Some(l@),
        None => None,
    }
}

/// What the observation `observed` makes of `l`; nothing where it is known.
pub open spec fn observation(l: LifecycleView, observed: PhaseView) -> Option<LifecycleView> {
    if l.observed == observed && l.failure is None && l.operation is None {
        None
    } else {
        Some(LifecycleView { observed, operation: None, failure: None, ..l })
    }
}

/// What giving up in favour of `observed` makes of `l`; nothing where that was
/// done before.
pub open spec fn cancellation(l: LifecycleView, observed: PhaseView, known: bool) -> Option<LifecycleView> {
    if converged(l) && l.observed == observed && known {
        None
    } else {
        Some(LifecycleView { desired: observed, observed, operation: None, failure: None, ..l })
    }
}

/// What claiming the interrupted transition of `l` comes to.
pub open spec fn resumed(id: Seq<char>, l: LifecycleView, generation: StateGeneration) -> BeginOutcome {
    if l.generation != generation {
        BeginOutcome::Refused(stale(id, generation, l.generation))
    } else if converged(l) {
        BeginOutcome::Stays(TransitionDisposition::AlreadyObserved)
    } else if generation.0 == u64::MAX {
        BeginOutcome::Refused(exhausted(id))
    } else {
        BeginOutcome::Acquired(next_generation(l))
    }
}

/// The lifecycle after a request.
pub open spec fn after_begin(l: LifecycleView, outcome: BeginOutcome) -> LifecycleView {
    match outcome {
        BeginOutcome::Acquired(next) => next,
        _ => l,
    }
}

/// Of two equal requests by callers that know the same generation at most one
/// acquires the transition.
pub proof fn law_one_caller_acquires(
    id: Seq<char>,
    l: LifecycleView,
    expected: StateGeneration,
    desired: PhaseView,
    operation: Option<OperationView>,
)
    ensures
        begun(id, l, expected, desired, operation) is Acquired ==> !(begun(
            id,
            after_begin(l, begun(id, l, expected, desired, operation)),
            expected,
            desired,
            operation,
        ) is Acquired),
{
}

/// A transition that was acquired on a converged lifecycle stays pending until it
/// is observed; a caller that repeats the request joins it.
pub proof fn law_repeated_request_joins(
    id: Seq<char>,
    l: LifecycleView,
    expected: StateGeneration,
    desired: PhaseView,
    operation: Option<OperationView>,
)
    requires
        converged(l),
        begun(id, l, expected, desired, operation) is Acquired,
    ensures
        ({
            let next = after_begin(l, begun(id, l, expected, desired, operation));
            &&& !converged(next)
            &&& begun(id, next, expected, desired, operation) == BeginOutcome::Stays(
                TransitionDisposition::Joined,
            )
        }),
{
}

/// Generations only grow: an acquired transition has the generation after the one
/// that its caller knew.
pub proof fn law_generation_grows(
    id: Seq<char>,
    l: LifecycleView,
    expected: StateGeneration,
    desired: PhaseView,
    operation: Option<OperationView>,
)
    ensures
        begun(id, l, expected, desired, operation) matches BeginOutcome::Acquired(next) ==> l.generation
            == expected && next.generation.0 == l.generation.0 + 1 && next.desired == desired && next.operation
            == operation && next.failure is None,
        resumed(id, l, expected) matches BeginOutcome::Acquired(next) ==> l.generation == expected
            && next.generation.0 == l.generation.0 + 1 && next.desired == l.desired && next.operation
            == l.operation && next.failure is None,
{
}

/// Observing what was desired, in the acquired generation, converges.
pub proof fn law_observation_converges(l: LifecycleView)
    ensures
        match observation(l, l.desired) {
            Some(next) => converged(next) && next.generation == l.generation,
            None => converged(l),
        },
{
}

/// Giving a transition up converges on what was observed, and doing so again
/// changes nothing.
pub proof fn law_cancellation_converges(l: LifecycleView, observed: PhaseView)
    ensures
        match cancellation(l, observed, false) {
            Some(next) => converged(next) && next.observed == observed && cancellation(next, observed, true)
                is None,
            None => false,
        },
{
}

/// A failed transition can be tried again by the same request; another request
/// has to wait.
pub proof fn law_failure_keeps_its_target(
    id: Seq<char>,
    l: LifecycleView,
    desired: PhaseView,
    operation: Option<OperationView>,
)
    requires
        l.failure is Some,
        l.generation.0 < u64::MAX,
    ensures
        l.desired == desired && l.operation == operation ==> begun(id, l, l.generation, desired, operation)
            == BeginOutcome::Acquired(next_generation(l)),
        l.desired != desired || l.operation != operation ==> begun(id, l, l.generation, desired, operation)
            == BeginOutcome::Refused(still_pending(id)),
{
}

/// Bringing the observed phase in line with the process is done once.
pub proof fn law_normalizing_is_idempotent(observed: PhaseView, alive: bool)
    ensures
        seen_with_process(seen_with_process(observed, alive), alive) == seen_with_process(observed, alive),
{
}

/// A request for another state of a sandbox that has converged, made in its current
/// generation, is acquired: the next generation wants that state by that operation, and
/// what is observed stays until it is observed anew.
pub proof fn law_settled_sandbox_takes_a_request(
    id: Seq<char>,
    l: LifecycleView,
    desired: PhaseView,
    operation: Option<OperationView>,
)
    requires
        l.operation is None,
        l.failure is None,
        l.desired == l.observed,
        l.desired != desired || operation is Some,
        l.generation.0 < u64::MAX,
    ensures
        begun(id, l, l.generation, desired, operation) == BeginOutcome::Acquired(
            LifecycleView {
                desired,
                observed: l.observed,
                generation: StateGeneration((l.generation.0 + 1) as u64),
                operation,
                failure: None,
            },
        ),
{
}

/// When nothing has to be begun: where the wanted state is observed already, or the
/// same request is under way in this generation or was made for it. Any other request
/// in an older or newer generation is refused.
pub proof fn law_request_stays_or_is_refused(
    id: Seq<char>,
    l: LifecycleView,
    expected: StateGeneration,
    desired: PhaseView,
    operation: Option<OperationView>,
)
    ensures
        ({
            let r = begun(id, l, expected, desired, operation);
            let same = l.desired == desired && l.operation == operation && l.failure is None;
            let settled = l.operation is None && l.failure is None && l.desired == l.observed;
            &&& r == BeginOutcome::Stays(TransitionDisposition::AlreadyObserved) <==> l.generation == expected && same
                && settled
            &&& r == BeginOutcome::Stays(TransitionDisposition::Joined) <==> same && !settled && (l.generation
                == expected || l.generation.0 == expected.0 + 1)
            &&& l.generation != expected && !(same && !settled && l.generation.0 == expected.0 + 1) ==> r is Refused
            &&& l.generation == expected && !same && !settled && !(l.desired == desired && l.operation == operation)
                ==> r is Refused
        }),
{
}

/// What is observed is noted with nothing else changed but that the operation and its
/// failure are over; where that is so already, nothing is written.
pub proof fn law_observation_ends_the_operation(l: LifecycleView, observed: PhaseView)
    ensures
        observation(l, observed) is None <==> l.observed == observed && l.operation is None && l.failure is None,
        observation(l, observed) matches Some(next) ==> next == (LifecycleView {
            desired: l.desired,
            observed,
            generation: l.generation,
            operation: None,
            failure: None,
        }),
        cancellation(l, observed, true) is None <==> l.desired == observed && l.observed == observed && l.operation is None
            && l.failure is None,
        cancellation(l, observed, true) matches Some(next) ==> next == (LifecycleView {
            desired: observed,
            observed,
            generation: l.generation,
            operation: None,
            failure: None,
        }),
{
}

/// An operation that was broken off is taken up again in the next generation, for the
/// same state, by whoever knows its generation; once it has converged nothing is left
/// to take up.
pub proof fn law_broken_off_operation_is_resumed(id: Seq<char>, l: LifecycleView, generation: StateGeneration)
    requires
        l.generation.0 < u64::MAX,
    ensures
        ({
            let r = resumed(id, l, generation);
            let settled = l.operation is None && l.failure is None && l.desired == l.observed;
            &&& r is Refused <==> l.generation != generation
            &&& r == BeginOutcome::Stays(TransitionDisposition::AlreadyObserved) <==> l.generation == generation
                && settled
            &&& r is Acquired <==> l.generation == generation && !settled
            &&& r matches BeginOutcome::Acquired(next) ==> next == (LifecycleView {
                generation: StateGeneration((l.generation.0 + 1) as u64),
                failure: None,
                ..l
            })
        }),
{
}

/// What is observed of a sandbox follows its process: a running or paused one without a
/// process has stopped, one that counts as stopped, suspended or terminated but has a
/// process runs, and anything else stays.
pub proof fn law_process_tells_the_phase(s: Seq<char>)
    ensures
        seen_with_process(PhaseView::Running, true) == PhaseView::Running,
        seen_with_process(PhaseView::Paused, true) == PhaseView::Paused,
        seen_with_process(PhaseView::Running, false) == PhaseView::Stopped,
        seen_with_process(PhaseView::Paused, false) == PhaseView::Stopped,
        seen_with_process(PhaseView::Stopped, true) == PhaseView::Running,
        seen_with_process(PhaseView::Suspended, true) == PhaseView::Running,
        seen_with_process(PhaseView::Terminated, true) == PhaseView::Running,
        seen_with_process(PhaseView::Stopped, false) == PhaseView::Stopped,
        seen_with_process(PhaseView::Suspended, false) == PhaseView::Suspended,
        seen_with_process(PhaseView::Terminated, false) == PhaseView::Terminated,
        forall|alive: bool| #[trigger] seen_with_process(PhaseView::Unknown(s), alive) == PhaseView::Unknown(s),
        status_of(PhaseView::Paused) == "running"@,
        status_of(PhaseView::Running) == "running"@,
        status_of(PhaseView::Stopped) == "stopped"@,
        status_of(PhaseView::Suspended) == "suspended"@,
        status_of(PhaseView::Terminated) == "terminated"@,
        status_of(PhaseView::Unknown(s)) == s,
{
}

/// A failure is noted with everything else as it was; trying again clears it in the next
/// generation, for the same state.
pub proof fn law_failure_is_noted_and_cleared(l: LifecycleView, error: Seq<char>)
    requires
        l.generation.0 < u64::MAX,
    ensures
        failing(l, error) is None <==> l.failure == Some(error),
        failing(l, error) matches Some(next) ==> next.failure == Some(error) && next.desired == l.desired && next.observed
            == l.observed && next.generation == l.generation && next.operation == l.operation,
        retried(l) is None <==> l.failure is None,
        retried(l) matches Some(next) ==> next.failure is None && next.desired == l.desired && next.observed
            == l.observed && next.generation.0 == l.generation.0 + 1 && next.operation == l.operation,
{
}

} // verus!
