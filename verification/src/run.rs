//! The life of one agent run: identity, state, budget, cancellation and events.

use std::sync::atomic::AtomicBool;
use std::sync::atomic::Ordering;
use std::sync::Arc;
use vstd::prelude::*;
use vstd::string::*;

use crate::json;
use crate::provider::ProviderToolCall;
use crate::provider::ToolCallView;
use crate::text;

verus! {

/// Names a run.
#[derive(Clone, Copy, Debug, PartialEq, Eq, Hash, PartialOrd, Ord, Structural)]
pub struct AgentRunId(u64);

impl View for AgentRunId {
    type V = u64;

    closed spec fn view(&self) -> u64 {
        self.0
    }
}

impl AgentRunId {
    /// The run of a number.
    pub fn new(value: u64) -> (r: Self)
        ensures
            r@ == value,
    {
        AgentRunId(value)
    }

    /// The number of the run.
    pub fn value(self) -> (r: u64)
        ensures
            r == self@,
    {
        self.0
    }

    /// Whether two ids name one run.
    pub fn is_same(self, other: AgentRunId) -> (r: bool)
        ensures
            r == (self@ == other@),
            r == (self == other),
    {
        self.0 == other.0
    }
}

/// Names a request for approval within its run.
#[derive(Clone, Copy, Debug, PartialEq, Eq, Hash, PartialOrd, Ord, Structural)]
pub struct ApprovalId(pub u64);

impl View for ApprovalId {
    type V = u64;

    open spec fn view(&self) -> u64 {
        self.0
    }
}

impl ApprovalId {
    /// The number of the request.
    pub fn value(self) -> (r: u64)
        ensures
            r == self@,
    {
        self.0
    }

    /// Whether two ids name one request.
    pub fn is_same(self, other: ApprovalId) -> (r: bool)
        ensures
            r == (self@ == other@),
    {
        self.0 == other.0
    }
}

/// Where a run stands.
#[derive(Clone, Copy, Debug, PartialEq, Eq, Structural)]
pub enum AgentState {
    Idle,
    Preparing,
    RunningModel,
    WaitingForTool,
    WaitingForApproval,
    RunningTool,
    Finalizing,
    Completed,
    Cancelled,
    Failed,
}

/// Whether a run that stands there is over.
pub open spec fn terminal(state: AgentState) -> bool {
    state is Completed || state is Cancelled || state is Failed
}

/// The name of a state.
pub open spec fn state_text(state: AgentState) -> Seq<char> {
    match state {
        AgentState::Idle => "Idle"@,
        AgentState::Preparing => "Preparing"@,
        AgentState::RunningModel => "RunningModel"@,
        AgentState::WaitingForTool => "WaitingForTool"@,
        AgentState::WaitingForApproval => "WaitingForApproval"@,
        AgentState::RunningTool => "RunningTool"@,
        AgentState::Finalizing => "Finalizing"@,
        AgentState::Completed => "Completed"@,
        AgentState::Cancelled => "Cancelled"@,
        AgentState::Failed => "Failed"@,
    }
}

impl AgentState {
    /// Whether a run that stands here is over.
    pub fn is_terminal(self) -> (r: bool)
        ensures
            r == terminal(self),
    {
        match self {
            AgentState::Completed | AgentState::Cancelled | AgentState::Failed => true,
            _ => false,
        }
    }

    /// The name of the state.
    pub fn name(self) -> (r: &'static str)
        ensures
            r@ == state_text(self),
    {
        match self {
            AgentState::Idle => "Idle",
            AgentState::Preparing => "Preparing",
            AgentState::RunningModel => "RunningModel",
            AgentState::WaitingForTool => "WaitingForTool",
            AgentState::WaitingForApproval => "WaitingForApproval",
            AgentState::RunningTool => "RunningTool",
            AgentState::Finalizing => "Finalizing",
            AgentState::Completed => "Completed",
            AgentState::Cancelled => "Cancelled",
            AgentState::Failed => "Failed",
        }
    }
}

/// A step that no run may take.
#[derive(Clone, Copy, Debug, PartialEq, Eq, Structural)]
pub struct InvalidTransition {
    pub from: AgentState,
    pub to: AgentState,
}

/// What is said of a step that no run may take.
pub open spec fn transition_text(error: InvalidTransition) -> Seq<char> {
    "invalid agent transition: "@ + state_text(error.from) + " -> "@ + state_text(error.to)
}

impl InvalidTransition {
    /// The error in words.
    pub fn message(&self) -> (r: String)
        ensures
            r@ == transition_text(*self),
    {
        let mut out = String::from_str("invalid agent transition: ");
        out.append(self.from.name());
        out.append(" -> ");
        out.append(self.to.name());
        out
    }
}

/// The steps that a run may take. An active run may always fail or be cancelled once it has left
/// `Idle`; nothing leads out of a terminal state.
pub open spec fn legal(from: AgentState, to: AgentState) -> bool {
    match from {
        AgentState::Idle => to is Preparing,
        AgentState::Preparing => to is RunningModel || to is Failed || to is Cancelled,
        AgentState::RunningModel => to is WaitingForTool || to is Finalizing || to is Failed
            || to is Cancelled,
        AgentState::WaitingForTool => to is RunningTool || to is RunningModel
            || to is WaitingForApproval || to is Failed || to is Cancelled,
        AgentState::WaitingForApproval => to is RunningTool || to is WaitingForTool
            || to is RunningModel || to is Failed || to is Cancelled,
        AgentState::RunningTool => to is RunningModel || to is WaitingForApproval || to is Failed
            || to is Cancelled,
        AgentState::Finalizing => to is Completed || to is Failed || to is Cancelled,
        AgentState::Completed | AgentState::Cancelled | AgentState::Failed => false,
    }
}

/// Whether a run may step from one state to another.
pub fn legal_transition(from: AgentState, to: AgentState) -> (r: bool)
    ensures
        r == legal(from, to),
{
    match (from, to) {
        (AgentState::Idle, AgentState::Preparing)
        | (AgentState::Preparing, AgentState::RunningModel)
        | (AgentState::Preparing, AgentState::Failed)
        | (AgentState::Preparing, AgentState::Cancelled)
        | (AgentState::RunningModel, AgentState::WaitingForTool)
        | (AgentState::RunningModel, AgentState::Finalizing)
        | (AgentState::RunningModel, AgentState::Failed)
        | (AgentState::RunningModel, AgentState::Cancelled)
        | (AgentState::WaitingForTool, AgentState::RunningTool)
        | (AgentState::WaitingForTool, AgentState::RunningModel)
        | (AgentState::WaitingForTool, AgentState::WaitingForApproval)
        | (AgentState::WaitingForTool, AgentState::Failed)
        | (AgentState::WaitingForTool, AgentState::Cancelled)
        | (AgentState::WaitingForApproval, AgentState::RunningTool)
        | (AgentState::WaitingForApproval, AgentState::WaitingForTool)
        | (AgentState::WaitingForApproval, AgentState::RunningModel)
        | (AgentState::WaitingForApproval, AgentState::Failed)
        | (AgentState::WaitingForApproval, AgentState::Cancelled)
        | (AgentState::RunningTool, AgentState::RunningModel)
        | (AgentState::RunningTool, AgentState::WaitingForApproval)
        | (AgentState::RunningTool, AgentState::Failed)
        | (AgentState::RunningTool, AgentState::Cancelled)
        | (AgentState::Finalizing, AgentState::Completed)
        | (AgentState::Finalizing, AgentState::Failed)
        | (AgentState::Finalizing, AgentState::Cancelled) => true,
        _ => false,
    }
}

/// How much a run may use.
#[derive(Clone, Copy, Debug, PartialEq, Eq, Structural)]
pub struct AgentBudget {
    pub max_provider_turns: usize,
    pub max_tool_calls: usize,
}

impl AgentBudget {
    /// A budget of so many turns and calls.
    pub fn new(max_provider_turns: usize, max_tool_calls: usize) -> (r: Self)
        ensures
            r.max_provider_turns == max_provider_turns,
            r.max_tool_calls == max_tool_calls,
    {
        AgentBudget { max_provider_turns, max_tool_calls }
    }
}

/// How much a run has used.
#[derive(Clone, Copy, Debug, PartialEq, Eq, Structural)]
pub struct AgentUsage {
    pub provider_turns: usize,
    pub tool_calls: usize,
}

impl Default for AgentUsage {
    fn default() -> (r: Self)
        ensures
            r.provider_turns == 0,
            r.tool_calls == 0,
    {
        AgentUsage { provider_turns: 0, tool_calls: 0 }
    }
}

/// What a budget counts.
#[derive(Clone, Copy, Debug, PartialEq, Eq, Structural)]
pub enum BudgetResource {
    ProviderTurns,
    ToolCalls,
}

/// A use that the budget does not cover.
#[derive(Clone, Copy, Debug, PartialEq, Eq, Structural)]
pub struct BudgetExceeded {
    pub resource: BudgetResource,
    pub limit: usize,
    pub attempted: usize,
}

/// What is said of a use that the budget does not cover.
pub open spec fn budget_text(error: BudgetExceeded) -> Seq<char> {
    "agent budget exceeded for "@ + (match error.resource {
        BudgetResource::ProviderTurns => "ProviderTurns"@,
        BudgetResource::ToolCalls => "ToolCalls"@,
    })
}

impl BudgetExceeded {
    /// The error in words.
    pub fn message(&self) -> (r: String)
        ensures
            r@ == budget_text(*self),
    {
        let mut out = String::from_str("agent budget exceeded for ");
        out.append(
            match self.resource {
                BudgetResource::ProviderTurns => "ProviderTurns",
                BudgetResource::ToolCalls => "ToolCalls",
            },
        );
        out
    }
}

/// Whether a run was asked to stop. The answer is shared by every clone and may change at any time
/// from another thread: it only ever changes from no to yes.
#[derive(Debug)]
pub struct Cancellation {
    cancelled: Arc<AtomicBool>,
}

impl Cancellation {
    /// Whether the shared answer was made as no.
    pub closed spec fn begun(&self) -> bool {
        call_ensures(AtomicBool::new, (false,), *self.cancelled)
    }

    /// Whether a reading of the shared answer may give `seen`.
    pub closed spec fn reads(&self, seen: bool) -> bool {
        call_ensures(AtomicBool::load, (&*self.cancelled, Ordering::Acquire), seen)
    }

    /// Whether the shared answer may have been `was` when it was made yes.
    pub closed spec fn turns(&self, was: bool) -> bool {
        call_ensures(AtomicBool::swap, (&*self.cancelled, true, Ordering::AcqRel), was)
    }
}

impl Clone for Cancellation {
    /// Another handle on the same answer.
    fn clone(&self) -> (r: Self)
        ensures
            r == *self,
    {
        Cancellation { cancelled: self.cancelled.clone() }
    }
}

impl Default for Cancellation {
    fn default() -> (r: Self)
        ensures
            r.begun(),
    {
        Cancellation { cancelled: Arc::new(AtomicBool::new(false)) }
    }
}

impl Cancellation {
    /// Asks the run to stop; whether this call was the first to ask. The shared answer is made yes,
    /// and the result says what it was before. What it was, and that later readings give yes, is
    /// left unsaid: other threads hold the answer too.
    pub fn cancel(&self) -> (r: bool)
        ensures
            self.turns(!r),
    {
        !self.cancelled.swap(true, Ordering::AcqRel)
    }

    /// Whether the run was asked to stop: what a reading of the shared answer gives. Which of the
    /// two that is, is left unsaid: other threads hold the answer too.
    pub fn is_cancelled(&self) -> (r: bool)
        ensures
            self.reads(r),
    {
        self.cancelled.load(Ordering::Acquire)
    }
}

/// Whether a look at a handle may tell that the run was asked to stop, or that it was not.
pub open spec fn may_look(handle: Cancellation, asked: bool) -> bool {
    call_ensures(Cancellation::is_cancelled, (&handle,), asked)
}

/// Whether a run was told to stop by its handle.
pub open spec fn told_to_stop(handle: Cancellation) -> bool {
    exists|first: bool| #[trigger] call_ensures(Cancellation::cancel, (&handle,), first)
}

/// Whether a handle is one that nobody has used before.
pub open spec fn fresh_handle(handle: Cancellation) -> bool {
    call_ensures(Cancellation::default, (), handle)
}

/// What kind of thing failed.
#[derive(Clone, Copy, Debug, PartialEq, Eq, Structural)]
pub enum AgentFailureKind {
    Provider,
    Tool,
    BudgetExceeded,
    Transition,
    Infrastructure,
}

/// Why a run failed.
#[derive(Debug, PartialEq, Eq)]
pub struct AgentFailureDiagnostic {
    pub kind: AgentFailureKind,
    pub message: String,
}

/// An `AgentFailureDiagnostic` by what it says.
#[verifier::ext_equal]
pub struct DiagnosticView {
    pub kind: AgentFailureKind,
    pub message: Seq<char>,
}

impl View for AgentFailureDiagnostic {
    type V = DiagnosticView;

    open spec fn view(&self) -> DiagnosticView {
        DiagnosticView { kind: self.kind, message: self.message@ }
    }
}

impl Clone for AgentFailureDiagnostic {
    fn clone(&self) -> (r: Self)
        ensures
            r@ == self@,
    {
        AgentFailureDiagnostic { kind: self.kind, message: self.message.clone() }
    }
}

/// `s` if it is at most `limit` characters long, else its first `limit` characters and an
/// ellipsis.
pub open spec fn bounded(s: Seq<char>, limit: nat) -> Seq<char> {
    if s.len() > limit {
        s.take(limit as int).push('…')
    } else {
        s
    }
}

/// How many characters of a diagnostic are kept.
pub const DIAGNOSTIC_CHARS: usize = 240;

/// How many characters of a tool's arguments, or of the reason to ask for approval, are kept.
pub const ARGUMENT_CHARS: usize = 4096;

/// `s` with its control characters blanked out.
pub open spec fn blanked(s: Seq<char>) -> Seq<char> {
    s.map_values(|c: char| if text::control(c) { ' ' } else { c })
}

/// A diagnostic on one line and of bounded length.
pub fn concise_diagnostic(message: &str) -> (r: String)
    ensures
        r@ == bounded(blanked(message@), DIAGNOSTIC_CHARS as nat),
{
    let chars = text::chars_of(message);
    let mut out = String::new();
    let mut i: usize = 0;
    while i < chars.len() && i < DIAGNOSTIC_CHARS
        invariant
            i <= chars@.len(),
            i <= DIAGNOSTIC_CHARS,
            chars@ == message@,
            out@ == blanked(message@).take(i as int),
        decreases chars@.len() - i,
    {
        out.push(
            if text::is_control(chars[i]) {
                ' '
            } else {
                chars[i]
            },
        );
        i += 1;
        assert(out@ =~= blanked(message@).take(i as int));
    }
    if chars.len() > DIAGNOSTIC_CHARS {
        out.push('…');
    } else {
        assert(blanked(message@).take(i as int) =~= blanked(message@));
    }
    out
}

/// Arguments of bounded length.
pub fn bounded_arguments(arguments: &str) -> (r: String)
    ensures
        r@ == bounded(arguments@, ARGUMENT_CHARS as nat),
{
    let chars = text::chars_of(arguments);
    if chars.len() > ARGUMENT_CHARS {
        let mut out = text::string_of(&chars, 0, ARGUMENT_CHARS);
        assert(arguments@.subrange(0, ARGUMENT_CHARS as int) =~= arguments@.take(
            ARGUMENT_CHARS as int,
        ));
        out.push('…');
        out
    } else {
        String::from_str(arguments)
    }
}

/// What a user is asked to approve.
#[derive(Debug, PartialEq, Eq)]
pub struct ApprovalRequest {
    pub run_id: AgentRunId,
    pub approval_id: ApprovalId,
    pub tool_name: String,
    pub arguments: String,
    pub reason: String,
}

/// An `ApprovalRequest` by what it says.
#[verifier::ext_equal]
pub struct ApprovalView {
    pub run_id: AgentRunId,
    pub approval_id: ApprovalId,
    pub tool_name: Seq<char>,
    pub arguments: Seq<char>,
    pub reason: Seq<char>,
}

impl View for ApprovalRequest {
    type V = ApprovalView;

    open spec fn view(&self) -> ApprovalView {
        ApprovalView {
            run_id: self.run_id,
            approval_id: self.approval_id,
            tool_name: self.tool_name@,
            arguments: self.arguments@,
            reason: self.reason@,
        }
    }
}

impl Clone for ApprovalRequest {
    fn clone(&self) -> (r: Self)
        ensures
            r@ == self@,
    {
        ApprovalRequest {
            run_id: self.run_id,
            approval_id: self.approval_id,
            tool_name: self.tool_name.clone(),
            arguments: self.arguments.clone(),
            reason: self.reason.clone(),
        }
    }
}

/// What a user is asked of a call.
pub open spec fn approval_of(
    run_id: AgentRunId,
    approval_id: ApprovalId,
    call: ToolCallView,
    reason: Seq<char>,
) -> ApprovalView {
    ApprovalView {
        run_id,
        approval_id,
        tool_name: call.name,
        arguments: bounded(json::json_text(call.arguments), ARGUMENT_CHARS as nat),
        reason: bounded(reason, ARGUMENT_CHARS as nat),
    }
}

impl ApprovalRequest {
    fn from_call(
        run_id: AgentRunId,
        approval_id: ApprovalId,
        call: &ProviderToolCall,
        reason: &str,
    ) -> (r: Self)
        ensures
            r@ == approval_of(run_id, approval_id, call@, reason@),
    {
        ApprovalRequest {
            run_id,
            approval_id,
            tool_name: call.name.clone(),
            arguments: bounded_arguments(&json::to_text(&call.arguments)),
            reason: bounded_arguments(reason),
        }
    }
}

/// Why an approval was not taken.
#[derive(Clone, Copy, Debug, PartialEq, Eq, Structural)]
pub enum ApprovalError {
    NotPending,
    UnknownApproval,
}

/// What is said of an approval that was not taken.
pub open spec fn approval_error_text(error: ApprovalError) -> Seq<char> {
    match error {
        ApprovalError::NotPending => "agent is not awaiting approval"@,
        ApprovalError::UnknownApproval => "unknown or stale approval"@,
    }
}

impl ApprovalError {
    /// The error in words.
    pub fn message(&self) -> (r: &'static str)
        ensures
            r@ == approval_error_text(*self),
    {
        match self {
            ApprovalError::NotPending => "agent is not awaiting approval",
            ApprovalError::UnknownApproval => "unknown or stale approval",
        }
    }
}

/// What a run tells whoever watches it.
#[derive(Debug, PartialEq, Eq)]
pub enum AgentEvent {
    RunStarted { run_id: AgentRunId },
    ModelStarted { run_id: AgentRunId },
    ThinkingDelta { run_id: AgentRunId, delta: String },
    ContentDelta { run_id: AgentRunId, delta: String },
    ToolRequested { run_id: AgentRunId },
    ApprovalRequested {
        run_id: AgentRunId,
        approval_id: ApprovalId,
        tool_name: String,
        arguments: String,
        reason: String,
    },
    ToolStarted { run_id: AgentRunId },
    ToolCompleted { run_id: AgentRunId, succeeded: bool },
    Finalizing { run_id: AgentRunId },
    Completed { run_id: AgentRunId },
    Cancelled { run_id: AgentRunId },
    Failed { run_id: AgentRunId, diagnostic: AgentFailureDiagnostic },
}

/// What an event tells beside the run it belongs to.
#[verifier::ext_equal]
pub enum EventKind {
    RunStarted,
    ModelStarted,
    ThinkingDelta(Seq<char>),
    ContentDelta(Seq<char>),
    ToolRequested,
    ApprovalRequested {
        approval_id: ApprovalId,
        tool_name: Seq<char>,
        arguments: Seq<char>,
        reason: Seq<char>,
    },
    ToolStarted,
    ToolCompleted(bool),
    Finalizing,
    Completed,
    Cancelled,
    Failed(DiagnosticView),
}

/// An `AgentEvent` by what it says.
#[verifier::ext_equal]
pub struct EventView {
    pub run_id: AgentRunId,
    pub kind: EventKind,
}

impl View for AgentEvent {
    type V = EventView;

    open spec fn view(&self) -> EventView {
        match *self {
            AgentEvent::RunStarted { run_id } => EventView { run_id, kind: EventKind::RunStarted },
            AgentEvent::ModelStarted { run_id } => EventView {
                run_id,
                kind: EventKind::ModelStarted,
            },
            AgentEvent::ThinkingDelta { run_id, delta } => EventView {
                run_id,
                kind: EventKind::ThinkingDelta(delta@),
            },
            AgentEvent::ContentDelta { run_id, delta } => EventView {
                run_id,
                kind: EventKind::ContentDelta(delta@),
            },
            AgentEvent::ToolRequested { run_id } => EventView {
                run_id,
                kind: EventKind::ToolRequested,
            },
            AgentEvent::ApprovalRequested { run_id, approval_id, tool_name, arguments, reason } =>
            EventView {
                run_id,
                kind: EventKind::ApprovalRequested {
                    approval_id,
                    tool_name: tool_name@,
                    arguments: arguments@,
                    reason: reason@,
                },
            },
            AgentEvent::ToolStarted { run_id } => EventView { run_id, kind: EventKind::ToolStarted },
            AgentEvent::ToolCompleted { run_id, succeeded } => EventView {
                run_id,
                kind: EventKind::ToolCompleted(succeeded),
            },
            AgentEvent::Finalizing { run_id } => EventView { run_id, kind: EventKind::Finalizing },
            AgentEvent::Completed { run_id } => EventView { run_id, kind: EventKind::Completed },
            AgentEvent::Cancelled { run_id } => EventView { run_id, kind: EventKind::Cancelled },
            AgentEvent::Failed { run_id, diagnostic } => EventView {
                run_id,
                kind: EventKind::Failed(diagnostic@),
            },
        }
    }
}

impl AgentEvent {
    /// The run that the event belongs to.
    pub fn run_id(&self) -> (r: AgentRunId)
        ensures
            r == self@.run_id,
    {
        match self {
            AgentEvent::RunStarted { run_id } => *run_id,
            AgentEvent::ModelStarted { run_id } => *run_id,
            AgentEvent::ThinkingDelta { run_id, .. } => *run_id,
            AgentEvent::ContentDelta { run_id, .. } => *run_id,
            AgentEvent::ToolRequested { run_id } => *run_id,
            AgentEvent::ApprovalRequested { run_id, .. } => *run_id,
            AgentEvent::ToolStarted { run_id } => *run_id,
            AgentEvent::ToolCompleted { run_id, .. } => *run_id,
            AgentEvent::Finalizing { run_id } => *run_id,
            AgentEvent::Completed { run_id } => *run_id,
            AgentEvent::Cancelled { run_id } => *run_id,
            AgentEvent::Failed { run_id, .. } => *run_id,
        }
    }
}

/// Whether an event belongs to another run than the active one.
pub fn is_stale_event(event: &AgentEvent, active_run_id: AgentRunId) -> (r: bool)
    ensures
        r == (event@.run_id@ != active_run_id@),
{
    !event.run_id().is_same(active_run_id)
}

/// A call that waits for the user.
#[derive(Debug, PartialEq)]
struct PendingApproval {
    approval_id: ApprovalId,
    call: ProviderToolCall,
}

/// One run of the agent.
#[derive(Debug)]
pub struct AgentRun {
    id: AgentRunId,
    state: AgentState,
    budget: AgentBudget,
    usage: AgentUsage,
    cancellation: Cancellation,
    next_approval_id: u64,
    pending_approval: Option<PendingApproval>,
}

/// What is known of a run at one moment.
#[verifier::ext_equal]
pub struct RunView {
    pub id: AgentRunId,
    pub state: AgentState,
    pub budget: AgentBudget,
    pub usage: AgentUsage,
    pub handle: Cancellation,
    pub next_approval_id: u64,
    pub pending: Option<(ApprovalId, ToolCallView)>,
}

impl View for AgentRun {
    type V = RunView;

    closed spec fn view(&self) -> RunView {
        RunView {
            id: self.id,
            state: self.state,
            budget: self.budget,
            usage: self.usage,
            handle: self.cancellation,
            next_approval_id: self.next_approval_id,
            pending: match self.pending_approval {
                Some(pending) => Some((pending.approval_id, pending.call@)),
                None => None,
            },
        }
    }
}

/// Whether a call of the run waits under an approval id.
pub open spec fn awaits(run: RunView, approval_id: ApprovalId) -> bool {
    match run.pending {
        Some((id, _)) => id@ == approval_id@,
        None => false,
    }
}

/// Whether a run has stayed within its budget.
pub open spec fn within_budget(run: RunView) -> bool {
    run.usage.provider_turns <= run.budget.max_provider_turns && run.usage.tool_calls
        <= run.budget.max_tool_calls
}

/// A run once it was cancelled; one that is over stays as it is.
pub open spec fn after_cancel(run: RunView) -> RunView {
    if terminal(run.state) {
        run
    } else {
        RunView { state: AgentState::Cancelled, pending: None, ..run }
    }
}

impl AgentRun {
    /// A run that has not begun.
    pub fn new(id: AgentRunId, budget: AgentBudget) -> (r: Self)
        ensures
            r@.id == id,
            r@.state == AgentState::Idle,
            r@.budget == budget,
            r@.usage.provider_turns == 0,
            r@.usage.tool_calls == 0,
            fresh_handle(r@.handle),
            r@.next_approval_id == 1,
            r@.pending is None,
            within_budget(r@),
    {
        AgentRun {
            id,
            state: AgentState::Idle,
            budget,
            usage: AgentUsage::default(),
            cancellation: Cancellation::default(),
            next_approval_id: 1,
            pending_approval: None,
        }
    }

    /// The name of the run.
    pub fn id(&self) -> (r: AgentRunId)
        ensures
            r == self@.id,
    {
        self.id
    }

    /// Where the run stands.
    pub fn state(&self) -> (r: AgentState)
        ensures
            r == self@.state,
    {
        self.state
    }

    /// How much the run may use.
    pub fn budget(&self) -> (r: AgentBudget)
        ensures
            r == self@.budget,
    {
        self.budget
    }

    /// How much the run has used.
    pub fn usage(&self) -> (r: AgentUsage)
        ensures
            r == self@.usage,
    {
        self.usage
    }

    /// The handle by which anyone can ask the run to stop. A run has one, and keeps it.
    pub fn cancellation(&self) -> (r: Cancellation)
        ensures
            r == self@.handle,
    {
        self.cancellation.clone()
    }

    /// Steps to another state, where that is legal; else nothing changes. A step to `Cancelled`
    /// also tells the handle of the run.
    pub fn transition(&mut self, to: AgentState) -> (r: Result<(), InvalidTransition>)
        ensures
            match r {
                Ok(_) => legal(old(self)@.state, to) && final(self)@ == (RunView {
                    state: to,
                    ..old(self)@
                }),
                Err(error) => !legal(old(self)@.state, to) && error == (InvalidTransition {
                    from: old(self)@.state,
                    to,
                }) && final(self)@ == old(self)@,
            },
            r is Ok && to is Cancelled ==> told_to_stop(old(self)@.handle),
    {
        if !legal_transition(self.state, to) {
            return Err(InvalidTransition { from: self.state, to });
        }
        self.state = to;
        if to == AgentState::Cancelled {
            self.cancellation.cancel();
        }
        Ok(())
    }

    /// Cancels the run, and tells its handle, unless it is over; whether it was cancelled by this
    /// call.
    pub fn cancel(&mut self) -> (r: bool)
        ensures
            r == !terminal(old(self)@.state),
            final(self)@ == after_cancel(old(self)@),
            r ==> told_to_stop(old(self)@.handle),
    {
        if self.state.is_terminal() {
            return false;
        }
        self.cancellation.cancel();
        self.pending_approval = None;
        self.state = AgentState::Cancelled;
        true
    }

    /// Makes a call wait for the user, under a fresh approval id.
    pub(crate) fn issue_approval(&mut self, call: ProviderToolCall, reason: &str) -> (r:
        ApprovalRequest)
        ensures
            r@ == approval_of(old(self)@.id, r.approval_id, call@, reason@),
            r.approval_id@ == old(self)@.next_approval_id,
            final(self)@ == (RunView {
                next_approval_id: if old(self)@.next_approval_id == u64::MAX {
                    u64::MAX
                } else {
                    (old(self)@.next_approval_id + 1) as u64
                },
                pending: Some((r.approval_id, call@)),
                ..old(self)@
            }),
    {
        let approval_id = ApprovalId(self.next_approval_id);
        self.next_approval_id = self.next_approval_id.saturating_add(1);
        let request = ApprovalRequest::from_call(self.id, approval_id, &call, reason);
        self.pending_approval = Some(PendingApproval { approval_id, call });
        request
    }

    /// The approval that is waited for: its id and a copy of its call.
    pub(crate) fn pending_call(&self) -> (r: Option<(ApprovalId, ProviderToolCall)>)
        ensures
            match r {
                Some((id, call)) => self@.pending == Some((id, call@)),
                None => self@.pending is None,
            },
    {
        match &self.pending_approval {
            Some(pending) => Some((pending.approval_id, pending.call.clone())),
            None => None,
        }
    }

    /// Takes the call that waits under an approval id.
    pub(crate) fn resolve_approval(&mut self, approval_id: ApprovalId) -> (r: Result<
        ProviderToolCall,
        ApprovalError,
    >)
        ensures
            match r {
                Ok(call) => old(self)@.state is WaitingForApproval && awaits(
                    old(self)@,
                    approval_id,
                ) && call@ == (old(self)@.pending->0).1 && final(self)@ == (RunView {
                    pending: None,
                    ..old(self)@
                }),
                Err(error) => final(self)@ == old(self)@ && error == (if old(self)@.state is WaitingForApproval && old(self)@.pending is Some {
                    ApprovalError::UnknownApproval
                } else {
                    ApprovalError::NotPending
                }) && !(old(self)@.state is WaitingForApproval && awaits(old(self)@, approval_id)),
            },
    {
        if self.state != AgentState::WaitingForApproval {
            return Err(ApprovalError::NotPending);
        }
        match &self.pending_approval {
            None => {
                return Err(ApprovalError::NotPending);
            },
            Some(pending) => {
                if !pending.approval_id.is_same(approval_id) {
                    return Err(ApprovalError::UnknownApproval);
                }
            },
        }
        match self.pending_approval.take() {
            Some(pending) => Ok(pending.call),
            None => Err(ApprovalError::NotPending),
        }
    }

    /// Counts one turn of the model, where the budget covers it.
    pub fn consume_provider_turn(&mut self) -> (r: Result<(), BudgetExceeded>)
        ensures
            match r {
                Ok(_) => old(self)@.usage.provider_turns < old(self)@.budget.max_provider_turns
                    && final(self)@ == (RunView {
                    usage: AgentUsage {
                        provider_turns: (old(self)@.usage.provider_turns + 1) as usize,
                        ..old(self)@.usage
                    },
                    ..old(self)@
                }),
                Err(error) => old(self)@.usage.provider_turns >= old(self)@.budget.max_provider_turns && final(self)@ == old(self)@ && error == exceeded(
                    BudgetResource::ProviderTurns,
                    old(self)@.usage.provider_turns,
                    old(self)@.budget.max_provider_turns,
                ),
            },
    {
        let mut used: usize = self.usage.provider_turns;
        let r = consume(&mut used, self.budget.max_provider_turns, BudgetResource::ProviderTurns);
        self.usage.provider_turns = used;
        r
    }

    /// Counts one tool call, where the budget covers it.
    pub fn consume_tool_call(&mut self) -> (r: Result<(), BudgetExceeded>)
        ensures
            match r {
                Ok(_) => old(self)@.usage.tool_calls < old(self)@.budget.max_tool_calls && final(self)@ == (RunView {
                    usage: AgentUsage {
                        tool_calls: (old(self)@.usage.tool_calls + 1) as usize,
                        ..old(self)@.usage
                    },
                    ..old(self)@
                }),
                Err(error) => old(self)@.usage.tool_calls >= old(self)@.budget.max_tool_calls
                    && final(self)@ == old(self)@ && error == exceeded(
                    BudgetResource::ToolCalls,
                    old(self)@.usage.tool_calls,
                    old(self)@.budget.max_tool_calls,
                ),
            },
    {
        let mut used: usize = self.usage.tool_calls;
        let r = consume(&mut used, self.budget.max_tool_calls, BudgetResource::ToolCalls);
        self.usage.tool_calls = used;
        r
    }
}

/// The refusal of one use more.
pub open spec fn exceeded(resource: BudgetResource, used: usize, limit: usize) -> BudgetExceeded {
    BudgetExceeded {
        resource,
        limit,
        attempted: if used == usize::MAX {
            usize::MAX
        } else {
            (used + 1) as usize
        },
    }
}

/// Counts one use, where the limit covers it.
fn consume(usage: &mut usize, limit: usize, resource: BudgetResource) -> (r: Result<
    (),
    BudgetExceeded,
>)
    ensures
        match r {
            Ok(_) => *old(usage) < limit && *final(usage) == *old(usage) + 1,
            Err(error) => *old(usage) >= limit && *final(usage) == *old(usage) && error
                == exceeded(resource, *old(usage), limit),
        },
{
    let attempted: usize = if *usage == usize::MAX {
        usize::MAX
    } else {
        *usage + 1
    };
    if *usage >= limit {
        return Err(BudgetExceeded { resource, limit, attempted });
    }
    *usage = *usage + 1;
    Ok(())
}

/// Whoever watches runs.
pub trait EventSink {
    /// What was told so far. A verified watcher keeps it; one that leaves this as it is cannot meet
    /// what `emit` promises.
    closed spec fn emitted(&self) -> Seq<EventView> {
        arbitrary()
    }

    /// Tells one thing more.
    fn emit(&mut self, event: AgentEvent)
        ensures
            final(self).emitted() == old(self).emitted().push(event@),
    ;
}

/// A watcher that keeps what it is told.
#[derive(Debug)]
pub struct EventLog {
    pub events: Vec<AgentEvent>,
}

/// The events of a list by what they say.
pub open spec fn event_views(events: Seq<AgentEvent>) -> Seq<EventView> {
    events.map_values(|e: AgentEvent| e@)
}

impl Default for EventLog {
    fn default() -> (r: Self)
        ensures
            r.events@.len() == 0,
            r.emitted() == Seq::<EventView>::empty(),
    {
        let r = EventLog { events: Vec::new() };
        assert(r.emitted() =~= Seq::<EventView>::empty());
        r
    }
}

impl EventSink for EventLog {
    open spec fn emitted(&self) -> Seq<EventView> {
        event_views(self.events@)
    }

    fn emit(&mut self, event: AgentEvent)
        ensures
            final(self).events@ == old(self).events@.push(event),
    {
        self.events.push(event);
        assert(event_views(self.events@) =~= event_views(old(self).events@).push(event@));
    }
}

/// A run that is cancelled is over and waits for nothing, with its name, budget, usage and handle as
/// they were; no step leads out of it, and cancelling it again changes nothing.
pub proof fn law_cancelling_is_final(run: RunView, to: AgentState)
    ensures
        ({
            let after = after_cancel(run);
            &&& terminal(after.state)
            &&& after_cancel(after) == after
            &&& !legal(after.state, to)
            &&& after.id == run.id
            &&& after.budget == run.budget
            &&& after.usage == run.usage
            &&& after.handle == run.handle
            &&& terminal(run.state) ==> after == run
            &&& !terminal(run.state) ==> after.state is Cancelled && after.pending is None
        }),
{
}

/// The steps of a run: no state leads to itself, none leads back to the beginning, and the beginning
/// leads only to the preparation, which nothing else leads to; nothing leaves a run that is over; an
/// answer is completed only once it was finalized, which only the model leads to; and every run that
/// has begun and is not over can fail and can be cancelled.
pub proof fn law_steps_of_a_run(from: AgentState, to: AgentState)
    ensures
        legal(from, to) ==> from != to,
        legal(from, to) ==> !(to is Idle),
        from is Idle ==> (legal(from, to) <==> to is Preparing),
        to is Preparing ==> (legal(from, to) <==> from is Idle),
        terminal(from) ==> !legal(from, to),
        to is Completed ==> (legal(from, to) <==> from is Finalizing),
        to is Finalizing ==> (legal(from, to) <==> from is RunningModel),
        to is Failed || to is Cancelled ==> (legal(from, to) <==> !terminal(from) && !(
        from is Idle)),
{
}

} // verus!
