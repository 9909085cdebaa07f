//! Runs a conversation with a model that may call tools, within a budget and under a policy.

use vstd::prelude::*;
use vstd::string::*;

use crate::provider;
use crate::provider::ChatRole;
use crate::provider::MessageView;
use crate::provider::ProviderChatMessage;
use crate::provider::ProviderChatRequest;
use crate::provider::ProviderChatStreamEvent;
use crate::provider::ProviderError;
use crate::provider::ProviderErrorView;
use crate::provider::ProviderToolCall;
use crate::provider::RequestView;
use crate::provider::StreamEventView;
use crate::provider::ToolCallView;
use crate::run;
use crate::run::AgentEvent;
use crate::run::AgentFailureDiagnostic;
use crate::run::AgentFailureKind;
use crate::run::AgentRun;
use crate::run::AgentRunId;
use crate::run::AgentState;
use crate::run::AgentUsage;
use crate::run::ApprovalError;
use crate::run::ApprovalId;
use crate::run::ApprovalRequest;
use crate::run::ApprovalView;
use crate::run::BudgetExceeded;
use crate::run::BudgetResource;
use crate::run::DiagnosticView;
use crate::run::EventKind;
use crate::run::EventSink;
use crate::run::EventView;
use crate::run::InvalidTransition;
use crate::run::RunView;
use crate::text;
use crate::trace;
use crate::trace::Judgement;
use crate::trace::Machine;
use crate::record::Looks;
use crate::trace::Look;
use crate::trace::Past;
use crate::trace::Phase;
use crate::trace::Step;
use crate::trace::World;

verus! {

/// A turn of a model: what it was asked, what it said, and how the turn failed if it did.
#[verifier::ext_equal]
pub struct Exchange {
    pub request: RequestView,
    pub said: Seq<StreamEventView>,
    pub error: Option<ProviderErrorView>,
}

/// How a turn of a model failed, if it did.
pub open spec fn turn_error(outcome: Result<(), ProviderError>) -> Option<ProviderErrorView> {
    match outcome {
        Ok(_) => None,
        Err(error) => Some(error@),
    }
}

/// Whoever asks a model.
pub trait ProviderExecutor {
    /// The turns so far. A verified provider keeps them; one that leaves this as it is cannot meet
    /// what `execute` promises.
    closed spec fn asked(&self) -> Seq<Exchange> {
        arbitrary()
    }

    /// Asks for one turn more. What the model says is handed on piece by piece, as it comes in, also
    /// where the turn then fails.
    fn execute<S: EventSink>(
        &mut self,
        request: &ProviderChatRequest,
        stream: &mut TurnStream<'_, S>,
    ) -> (r: Result<(), ProviderError>)
        ensures
            final(self).asked() == old(self).asked().push(final(self).asked().last()),
            final(self).asked().last().request == request@,
            final(self).asked().last().error == turn_error(r),
            heard(*old(stream), *final(stream), final(self).asked().last().said),
            *final(final(stream).sink) == *final(old(stream).sink),
    ;
}

/// What a tool gave back.
#[derive(Debug, PartialEq, Eq)]
pub enum ToolOutcome {
    Success(String),
    ControlledError(String),
}

impl Clone for ToolOutcome {
    fn clone(&self) -> (r: Self)
        ensures
            r.content() == self.content(),
            r is Success == self is Success,
    {
        match self {
            ToolOutcome::Success(content) => ToolOutcome::Success(content.clone()),
            ToolOutcome::ControlledError(content) => ToolOutcome::ControlledError(content.clone()),
        }
    }
}

impl ToolOutcome {
    /// What the model is told of the outcome.
    pub open spec fn content(&self) -> Seq<char> {
        match *self {
            ToolOutcome::Success(content) => content@,
            ToolOutcome::ControlledError(content) => content@,
        }
    }
}

/// A tool could not be run at all.
#[derive(Debug, PartialEq, Eq)]
pub struct ToolInfrastructureError {
    pub message: String,
}

impl Clone for ToolInfrastructureError {
    fn clone(&self) -> (r: Self)
        ensures
            r.message@ == self.message@,
    {
        ToolInfrastructureError { message: self.message.clone() }
    }
}

/// What came of a call that was run: what the model is told of it, or why no tool could run.
#[verifier::ext_equal]
pub enum GivenView {
    Told { succeeded: bool, content: Seq<char> },
    Broken(Seq<char>),
}

/// What came of a call that was run.
pub open spec fn given(outcome: Result<ToolOutcome, ToolInfrastructureError>) -> GivenView {
    match outcome {
        Ok(outcome) => GivenView::Told {
            succeeded: outcome is Success,
            content: outcome.content(),
        },
        Err(error) => GivenView::Broken(error.message@),
    }
}

/// Whoever runs tools.
pub trait ToolExecutor {
    /// The calls that were run so far, each with what came of it. Verified tools keep them; tools
    /// that leave this as it is cannot meet what `execute` promises.
    closed spec fn ran(&self) -> Seq<(ToolCallView, GivenView)> {
        arbitrary()
    }

    /// What may come of a call; it stays the same.
    closed spec fn gives(&self) -> spec_fn(ToolCallView, GivenView) -> bool {
        |call: ToolCallView, given: GivenView| true
    }

    /// Runs one call more.
    fn execute(&mut self, call: &ProviderToolCall) -> (r: Result<
        ToolOutcome,
        ToolInfrastructureError,
    >)
        ensures
            final(self).ran() == old(self).ran().push((call@, given(r))),
            final(self).gives() == old(self).gives(),
            (old(self).gives())(call@, given(r)),
    ;
}

/// What a policy says of a call.
#[derive(Debug, PartialEq, Eq)]
pub enum ToolPolicyDecision {
    Allow,
    Deny { reason: String },
    RequireApproval { reason: String },
}

/// A `ToolPolicyDecision` by what it says.
pub enum DecisionView {
    Allow,
    Deny(Seq<char>),
    RequireApproval(Seq<char>),
}

impl View for ToolPolicyDecision {
    type V = DecisionView;

    open spec fn view(&self) -> DecisionView {
        match *self {
            ToolPolicyDecision::Allow => DecisionView::Allow,
            ToolPolicyDecision::Deny { reason } => DecisionView::Deny(reason@),
            ToolPolicyDecision::RequireApproval { reason } => DecisionView::RequireApproval(
                reason@,
            ),
        }
    }
}

impl Clone for ToolPolicyDecision {
    fn clone(&self) -> (r: Self)
        ensures
            r@ == self@,
    {
        match self {
            ToolPolicyDecision::Allow => ToolPolicyDecision::Allow,
            ToolPolicyDecision::Deny { reason } => ToolPolicyDecision::Deny {
                reason: reason.clone(),
            },
            ToolPolicyDecision::RequireApproval { reason } => ToolPolicyDecision::RequireApproval {
                reason: reason.clone(),
            },
        }
    }
}

/// What a policy is told beside the call.
#[derive(Clone, Copy, Debug, PartialEq, Eq, Structural)]
pub struct ToolPolicyContext {
    pub run_id: AgentRunId,
}

/// Whoever decides which calls are run.
pub trait ToolPolicy {
    /// What was asked and said so far. A verified policy keeps it; one that leaves this as it is
    /// cannot meet what `decide` promises.
    closed spec fn judged(&self) -> Seq<Judgement> {
        arbitrary()
    }

    /// Decides on one call more.
    fn decide(&mut self, context: ToolPolicyContext, call: &ProviderToolCall) -> (r:
        ToolPolicyDecision)
        ensures
            final(self).judged() == old(self).judged().push(
                Judgement { run_id: context.run_id, call: call@, decision: r@ },
            ),
    ;
}

/// Lets a model look but not touch.
#[derive(Clone, Copy)]
pub struct ReadOnlyToolPolicy {
    pub history: Ghost<Seq<Judgement>>,
}

impl Default for ReadOnlyToolPolicy {
    fn default() -> (r: Self)
        ensures
            r.judged() == Seq::<Judgement>::empty(),
    {
        ReadOnlyToolPolicy { history: Ghost(Seq::empty()) }
    }
}

/// The tools that only look.
pub open spec fn read_only_tool(name: Seq<char>) -> bool {
    name == "read_file"@ || name == "list_directory"@ || name == "fetch_url"@
}

/// What the read-only policy says of a tool.
pub open spec fn read_only_decision(name: Seq<char>) -> DecisionView {
    if read_only_tool(name) {
        DecisionView::Allow
    } else {
        DecisionView::Deny("tool '"@ + name + "' is not allowed"@)
    }
}

impl ToolPolicy for ReadOnlyToolPolicy {
    open spec fn judged(&self) -> Seq<Judgement> {
        self.history@
    }

    fn decide(&mut self, context: ToolPolicyContext, call: &ProviderToolCall) -> (r:
        ToolPolicyDecision)
        ensures
            r@ == read_only_decision(call@.name),
    {
        let decision = if text::eq(&call.name, "read_file") || text::eq(
            &call.name,
            "list_directory",
        ) || text::eq(&call.name, "fetch_url") {
            ToolPolicyDecision::Allow
        } else {
            let mut reason = String::from_str("tool '");
            reason.append(&call.name);
            reason.append("' is not allowed");
            ToolPolicyDecision::Deny { reason }
        };
        proof {
            self.history@ = self.history@.push(
                Judgement { run_id: context.run_id, call: call@, decision: decision@ },
            );
        }
        decision
    }
}

/// Why a run did not give an answer.
#[derive(Debug)]
pub enum AgentExecutionError {
    Provider(ProviderError),
    ProviderProtocol(&'static str),
    Tool(ToolInfrastructureError),
    BudgetExceeded(BudgetExceeded),
    ApprovalRequired(ApprovalRequest),
    Approval(ApprovalError),
    Cancelled,
    Transition(InvalidTransition),
}

/// An `AgentExecutionError` by what it says.
#[verifier::ext_equal]
pub enum ErrorView {
    Provider(ProviderErrorView),
    ProviderProtocol(Seq<char>),
    Tool(Seq<char>),
    BudgetExceeded(BudgetExceeded),
    ApprovalRequired(ApprovalView),
    Approval(ApprovalError),
    Cancelled,
    Transition(InvalidTransition),
}

impl View for AgentExecutionError {
    type V = ErrorView;

    open spec fn view(&self) -> ErrorView {
        match *self {
            AgentExecutionError::Provider(error) => ErrorView::Provider(error@),
            AgentExecutionError::ProviderProtocol(message) => ErrorView::ProviderProtocol(message@),
            AgentExecutionError::Tool(error) => ErrorView::Tool(error.message@),
            AgentExecutionError::BudgetExceeded(error) => ErrorView::BudgetExceeded(error),
            AgentExecutionError::ApprovalRequired(request) => ErrorView::ApprovalRequired(request@),
            AgentExecutionError::Approval(error) => ErrorView::Approval(error),
            AgentExecutionError::Cancelled => ErrorView::Cancelled,
            AgentExecutionError::Transition(error) => ErrorView::Transition(error),
        }
    }
}

/// How a programmer sees a provider error.
pub open spec fn provider_debug(error: ProviderErrorView) -> Seq<char> {
    match error {
        ProviderErrorView::ConnectionRefused => "ConnectionRefused"@,
        ProviderErrorView::Timeout => "Timeout"@,
        ProviderErrorView::InvalidResponse => "InvalidResponse"@,
        ProviderErrorView::Authentication => "Authentication"@,
        ProviderErrorView::Unavailable(reason) => "Unavailable("@ + text::debug_quoted(reason)
            + ")"@,
    }
}

/// What is said of a call that waits for approval.
pub open spec fn approval_text(tool_name: Seq<char>, approval_id: u64) -> Seq<char> {
    "approval required for "@ + tool_name + " (approval_id="@ + text::decimal(approval_id as nat)
        + ")"@
}

/// What is said of an error.
pub open spec fn error_text(error: ErrorView) -> Seq<char> {
    match error {
        ErrorView::Provider(error) => "provider execution failed: "@ + provider_debug(error),
        ErrorView::ProviderProtocol(message) => message,
        ErrorView::Tool(message) => "tool execution failed: "@ + message,
        ErrorView::BudgetExceeded(error) => run::budget_text(error),
        ErrorView::ApprovalRequired(request) => approval_text(
            request.tool_name,
            request.approval_id@,
        ),
        ErrorView::Approval(error) => run::approval_error_text(error),
        ErrorView::Cancelled => "agent run cancelled"@,
        ErrorView::Transition(error) => run::transition_text(error),
    }
}

/// What a watcher is told of an error.
pub open spec fn diagnosis(error: ErrorView) -> DiagnosticView {
    match error {
        ErrorView::Provider(error) => DiagnosticView {
            kind: AgentFailureKind::Provider,
            message: provider::user_text(error),
        },
        ErrorView::ProviderProtocol(message) => DiagnosticView {
            kind: AgentFailureKind::Provider,
            message,
        },
        ErrorView::Tool(message) => DiagnosticView {
            kind: AgentFailureKind::Tool,
            message: run::bounded(run::blanked(message), run::DIAGNOSTIC_CHARS as nat),
        },
        ErrorView::BudgetExceeded(error) => DiagnosticView {
            kind: AgentFailureKind::BudgetExceeded,
            message: (match error.resource {
                BudgetResource::ProviderTurns => "provider turns"@,
                BudgetResource::ToolCalls => "tool calls"@,
            }) + " (limit="@ + text::decimal(error.limit as nat) + ", attempted="@ + text::decimal(
                error.attempted as nat,
            ) + ")"@,
        },
        ErrorView::ApprovalRequired(request) => DiagnosticView {
            kind: AgentFailureKind::Infrastructure,
            message: approval_text(request.tool_name, request.approval_id@),
        },
        ErrorView::Approval(error) => DiagnosticView {
            kind: AgentFailureKind::Infrastructure,
            message: run::approval_error_text(error),
        },
        ErrorView::Cancelled => DiagnosticView {
            kind: AgentFailureKind::Infrastructure,
            message: "agent run cancelled"@,
        },
        ErrorView::Transition(error) => DiagnosticView {
            kind: AgentFailureKind::Transition,
            message: run::bounded(
                run::blanked(run::transition_text(error)),
                run::DIAGNOSTIC_CHARS as nat,
            ),
        },
    }
}

fn approval_message(tool_name: &str, approval_id: u64) -> (r: String)
    ensures
        r@ == approval_text(tool_name@, approval_id),
{
    let mut out = String::from_str("approval required for ");
    out.append(tool_name);
    out.append(" (approval_id=");
    out.append(&text::decimal_text(approval_id));
    out.append(")");
    out
}

impl AgentExecutionError {
    /// The error in words.
    pub fn message(&self) -> (r: String)
        ensures
            r@ == error_text(self@),
    {
        match self {
            AgentExecutionError::Provider(error) => {
                let mut out = String::from_str("provider execution failed: ");
                match error {
                    ProviderError::ConnectionRefused => out.append("ConnectionRefused"),
                    ProviderError::Timeout => out.append("Timeout"),
                    ProviderError::InvalidResponse => out.append("InvalidResponse"),
                    ProviderError::Authentication => out.append("Authentication"),
                    ProviderError::Unavailable(reason) => {
                        out.append("Unavailable(");
                        out.append(&text::debug_text(reason));
                        out.append(")");
                        assert(out@ =~= "provider execution failed: "@ + ("Unavailable("@
                            + text::debug_quoted(reason@) + ")"@));
                    },
                }
                out
            },
            AgentExecutionError::ProviderProtocol(message) => String::from_str(message),
            AgentExecutionError::Tool(error) => {
                let mut out = String::from_str("tool execution failed: ");
                out.append(&error.message);
                out
            },
            AgentExecutionError::BudgetExceeded(error) => error.message(),
            AgentExecutionError::ApprovalRequired(request) => approval_message(
                &request.tool_name,
                request.approval_id.value(),
            ),
            AgentExecutionError::Approval(error) => String::from_str(error.message()),
            AgentExecutionError::Cancelled => String::from_str("agent run cancelled"),
            AgentExecutionError::Transition(error) => error.message(),
        }
    }

    /// What a watcher is told of the error.
    pub fn diagnostic(&self) -> (r: AgentFailureDiagnostic)
        ensures
            r@ == diagnosis(self@),
    {
        match self {
            AgentExecutionError::Provider(error) => AgentFailureDiagnostic {
                kind: AgentFailureKind::Provider,
                message: String::from_str(error.user_message()),
            },
            AgentExecutionError::ProviderProtocol(message) => AgentFailureDiagnostic {
                kind: AgentFailureKind::Provider,
                message: String::from_str(message),
            },
            AgentExecutionError::Tool(error) => AgentFailureDiagnostic {
                kind: AgentFailureKind::Tool,
                message: run::concise_diagnostic(&error.message),
            },
            AgentExecutionError::BudgetExceeded(error) => {
                let mut message = String::from_str(
                    match error.resource {
                        BudgetResource::ProviderTurns => "provider turns",
                        BudgetResource::ToolCalls => "tool calls",
                    },
                );
                message.append(" (limit=");
                message.append(&text::decimal_text(error.limit as u64));
                message.append(", attempted=");
                message.append(&text::decimal_text(error.attempted as u64));
                message.append(")");
                AgentFailureDiagnostic { kind: AgentFailureKind::BudgetExceeded, message }
            },
            AgentExecutionError::ApprovalRequired(request) => AgentFailureDiagnostic {
                kind: AgentFailureKind::Infrastructure,
                message: approval_message(&request.tool_name, request.approval_id.value()),
            },
            AgentExecutionError::Approval(error) => AgentFailureDiagnostic {
                kind: AgentFailureKind::Infrastructure,
                message: String::from_str(error.message()),
            },
            AgentExecutionError::Cancelled => AgentFailureDiagnostic {
                kind: AgentFailureKind::Infrastructure,
                message: String::from_str("agent run cancelled"),
            },
            AgentExecutionError::Transition(error) => AgentFailureDiagnostic {
                kind: AgentFailureKind::Transition,
                message: run::concise_diagnostic(&error.message()),
            },
        }
    }
}

/// Whether a text holds what models write when they call tools in prose.
pub open spec fn tool_markup(content: Seq<char>) -> bool {
    let lowered = text::ascii_lowercase(content);
    ||| text::contains_text(lowered, "<tool_call"@)
    ||| text::contains_text(lowered, "</tool_call"@)
    ||| text::contains_text(lowered, "<function="@)
    ||| text::contains_text(lowered, "</function>"@)
}

/// Whether a text holds what models write when they call tools in prose.
pub fn contains_tool_protocol_markup(content: &str) -> (r: bool)
    ensures
        r == tool_markup(content@),
{
    let lowered = text::lower(&text::chars_of(content));
    text::contains(&lowered, &text::chars_of("<tool_call")) || text::contains(
        &lowered,
        &text::chars_of("</tool_call"),
    ) || text::contains(&lowered, &text::chars_of("<function=")) || text::contains(
        &lowered,
        &text::chars_of("</function>"),
    )
}

/// Whether a message stays when the model is to give its final answer: the assistant's turns and
/// the tool results go.
pub open spec fn kept_for_final(message: MessageView) -> bool {
    !(message.role is Assistant) && !(message.role is Tool)
}

/// How a tool result is told to a model that may call no tools.
pub open spec fn tool_result_text(message: MessageView) -> Seq<char> {
    "[tool result "@ + (match message.tool_call_id {
        Some(id) => id,
        None => "unknown"@,
    }) + "]\n"@ + message.content
}

/// The tool results of a conversation, in their order.
pub open spec fn tool_results(messages: Seq<MessageView>) -> Seq<Seq<char>> {
    messages.filter(|m: MessageView| m.role is Tool).map_values(
        |m: MessageView| tool_result_text(m),
    )
}

/// The instruction that ends a conversation in its final turn.
pub open spec fn final_instruction(messages: Seq<MessageView>) -> Seq<char> {
    let results = tool_results(messages);
    let instruction =
        "Final response mode: tools are disabled. Do not emit tool calls or tool-call markup. Produce only the final user-facing answer using the read-only tool results below."@;
    if results.len() == 0 {
        instruction
    } else {
        instruction + "\n\n"@ + text::join(results, "\n\n"@)
    }
}

/// The request of the final turn: no tools, no assistant and tool messages, and an instruction
/// that holds the tool results.
pub open spec fn final_request(request: RequestView) -> RequestView {
    RequestView {
        tools: None,
        messages: request.messages.filter(|m: MessageView| kept_for_final(m)).push(
            MessageView {
                role: ChatRole::System,
                content: final_instruction(request.messages),
                reasoning: None,
                tool_call_id: None,
                tool_calls: Seq::empty(),
            },
        ),
        ..request
    }
}

/// The request of the final turn.
pub fn finalization_request(request: &ProviderChatRequest) -> (r: ProviderChatRequest)
    ensures
        r@ == final_request(request@),
{
    let ghost all = request@.messages;
    let ghost keep = |m: MessageView| kept_for_final(m);
    let ghost is_tool = |m: MessageView| m.role is Tool;
    let mut messages: Vec<ProviderChatMessage> = Vec::new();
    let mut results = String::new();
    let mut any: bool = false;
    let mut i: usize = 0;
    assert(provider::message_views(messages@) =~= all.take(0).filter(keep)) by {
        reveal(Seq::filter);
    }
    assert(tool_results(all.take(0)) =~= Seq::<Seq<char>>::empty()) by {
        reveal(Seq::filter);
    }
    while i < request.messages.len()
        invariant
            i <= request.messages@.len(),
            all == request@.messages,
            all.len() == request.messages@.len(),
            keep == (|m: MessageView| kept_for_final(m)),
            is_tool == (|m: MessageView| m.role is Tool),
            provider::message_views(messages@) == all.take(i as int).filter(keep),
            any == (tool_results(all.take(i as int)).len() > 0),
            results@ == text::join(tool_results(all.take(i as int)), "\n\n"@),
        decreases request.messages@.len() - i,
    {
        let message = &request.messages[i];
        proof {
            text::lemma_filter_step(all, keep, i as int);
            text::lemma_filter_step(all, is_tool, i as int);
            assert(all[i as int] == message@);
        }
        let ghost before = tool_results(all.take(i as int));
        match message.role {
            ChatRole::Tool => {
                let mut entry = String::from_str("[tool result ");
                match &message.tool_call_id {
                    Some(id) => entry.append(id),
                    None => entry.append("unknown"),
                }
                entry.append("]\n");
                entry.append(&message.content);
                assert(entry@ == tool_result_text(message@));
                if any {
                    results.append("\n\n");
                }
                results.append(&entry);
                any = true;
                assert(tool_results(all.take(i + 1)) =~= before.push(entry@));
                assert(before.push(entry@).drop_last() =~= before);
            },
            ChatRole::Assistant => {
                assert(tool_results(all.take(i + 1)) =~= before);
            },
            ChatRole::User | ChatRole::System => {
                let ghost kept = provider::message_views(messages@);
                messages.push(message.clone());
                assert(provider::message_views(messages@) =~= kept.push(message@));
                assert(tool_results(all.take(i + 1)) =~= before);
            },
        }
        i += 1;
    }
    assert(all.take(i as int) =~= all);
    let mut synthesis = String::from_str(
        "Final response mode: tools are disabled. Do not emit tool calls or tool-call markup. Produce only the final user-facing answer using the read-only tool results below.",
    );
    if any {
        synthesis.append("\n\n");
        synthesis.append(&results);
    }
    let ghost kept = provider::message_views(messages@);
    let instruction = ProviderChatMessage {
        role: ChatRole::System,
        content: synthesis,
        reasoning: None,
        tool_call_id: None,
        tool_calls: Vec::new(),
    };
    assert(instruction@.tool_calls =~= Seq::<ToolCallView>::empty());
    messages.push(instruction);
    assert(provider::message_views(messages@) =~= kept.push(instruction@));
    ProviderChatRequest {
        model: request.model.clone(),
        messages,
        think: request.think,
        tools: None,
    }
}

/// What a run has reached: the conversation so far and the calls still to be handled.
#[derive(Debug)]
pub struct ExecutionContinuation {
    pub request: ProviderChatRequest,
    pub content: String,
    pub thinking: String,
    pub calls: Vec<ProviderToolCall>,
    pub tool_running: bool,
}

/// An `ExecutionContinuation` by what it says.
#[verifier::ext_equal]
pub struct ContinuationView {
    pub request: RequestView,
    pub content: Seq<char>,
    pub thinking: Seq<char>,
    pub calls: Seq<ToolCallView>,
    pub tool_running: bool,
}

impl View for ExecutionContinuation {
    type V = ContinuationView;

    open spec fn view(&self) -> ContinuationView {
        ContinuationView {
            request: self.request@,
            content: self.content@,
            thinking: self.thinking@,
            calls: provider::call_views(self.calls@),
            tool_running: self.tool_running,
        }
    }
}

/// The beginning of a conversation.
pub open spec fn fresh(request: RequestView) -> ContinuationView {
    ContinuationView {
        request,
        content: Seq::empty(),
        thinking: Seq::empty(),
        calls: Seq::empty(),
        tool_running: false,
    }
}

impl ExecutionContinuation {
    /// The beginning of a conversation.
    pub fn new(request: ProviderChatRequest) -> (r: Self)
        ensures
            r@ == fresh(request@),
    {
        let r = ExecutionContinuation {
            request,
            content: String::new(),
            thinking: String::new(),
            calls: Vec::new(),
            tool_running: false,
        };
        assert(r@.calls =~= Seq::<ToolCallView>::empty());
        r
    }
}

/// What a model has said in the turn that is going on.
#[derive(Debug)]
pub struct ModelTurn {
    pub finalization: bool,
    pub calls: Vec<ProviderToolCall>,
    pub final_content: String,
    pub reasoning: String,
}

/// A `ModelTurn` by what it says.
#[verifier::ext_equal]
pub struct TurnView {
    pub finalization: bool,
    pub calls: Seq<ToolCallView>,
    pub final_content: Seq<char>,
    pub reasoning: Seq<char>,
}

impl View for ModelTurn {
    type V = TurnView;

    open spec fn view(&self) -> TurnView {
        TurnView {
            finalization: self.finalization,
            calls: provider::call_views(self.calls@),
            final_content: self.final_content@,
            reasoning: self.reasoning@,
        }
    }
}

/// A turn in which nothing was said yet.
pub open spec fn silent(finalization: bool) -> TurnView {
    TurnView {
        finalization,
        calls: Seq::empty(),
        final_content: Seq::empty(),
        reasoning: Seq::empty(),
    }
}

impl ModelTurn {
    /// A turn in which nothing was said yet.
    pub fn new(finalization: bool) -> (r: Self)
        ensures
            r@ == silent(finalization),
    {
        let r = ModelTurn {
            finalization,
            calls: Vec::new(),
            final_content: String::new(),
            reasoning: String::new(),
        };
        assert(r@.calls =~= Seq::<ToolCallView>::empty());
        r
    }
}

/// A turn of the model as it goes on: the conversation, the turn, and what was told of it.
#[verifier::ext_equal]
pub struct TurnProgress {
    pub continuation: ContinuationView,
    pub turn: TurnView,
    pub told: Seq<EventKind>,
}

/// What one piece of a model's answer adds. In the final turn content is held back until the
/// whole of it is known.
pub open spec fn accept(before: TurnProgress, event: StreamEventView) -> TurnProgress {
    match event {
        StreamEventView::ThinkingDelta(delta) => TurnProgress {
            continuation: ContinuationView {
                thinking: before.continuation.thinking + delta,
                ..before.continuation
            },
            told: before.told.push(EventKind::ThinkingDelta(delta)),
            ..before
        },
        StreamEventView::ReasoningDelta(delta) => TurnProgress {
            turn: TurnView { reasoning: before.turn.reasoning + delta, ..before.turn },
            ..before
        },
        StreamEventView::ContentDelta(delta) => if before.turn.finalization {
            TurnProgress {
                turn: TurnView { final_content: before.turn.final_content + delta, ..before.turn },
                ..before
            }
        } else {
            TurnProgress {
                continuation: ContinuationView {
                    content: before.continuation.content + delta,
                    ..before.continuation
                },
                told: before.told.push(EventKind::ContentDelta(delta)),
                ..before
            }
        },
        StreamEventView::ToolCall(call) => TurnProgress {
            turn: TurnView { calls: before.turn.calls.push(call), ..before.turn },
            ..before
        },
        StreamEventView::Done => before,
    }
}

/// What a model's answer adds, piece by piece.
pub open spec fn accept_all(before: TurnProgress, events: Seq<StreamEventView>) -> TurnProgress
    decreases events.len(),
{
    if events.len() == 0 {
        before
    } else {
        accept(accept_all(before, events.drop_last()), events.last())
    }
}

/// Events of one run.
pub open spec fn tell(run_id: AgentRunId, kinds: Seq<EventKind>) -> Seq<EventView> {
    kinds.map_values(|kind: EventKind| EventView { run_id, kind })
}

/// Takes in one piece of a model's answer.
pub fn accept_event<S: EventSink>(
    continuation: &mut ExecutionContinuation,
    turn: &mut ModelTurn,
    run_id: AgentRunId,
    event: ProviderChatStreamEvent,
    sink: &mut S,
)
    ensures
        ({
            let after = accept(
                TurnProgress {
                    continuation: old(continuation)@,
                    turn: old(turn)@,
                    told: Seq::empty(),
                },
                event@,
            );
            &&& final(continuation)@ == after.continuation
            &&& final(turn)@ == after.turn
            &&& final(sink).emitted() == old(sink).emitted() + tell(run_id, after.told)
        }),
{
    let ghost log = sink.emitted();
    match event {
        ProviderChatStreamEvent::ThinkingDelta(delta) => {
            continuation.thinking.append(&delta);
            let ghost kinds = Seq::<EventKind>::empty().push(EventKind::ThinkingDelta(delta@));
            sink.emit(AgentEvent::ThinkingDelta { run_id, delta });
            assert(sink.emitted() =~= log + tell(run_id, kinds));
        },
        ProviderChatStreamEvent::ReasoningDelta(delta) => {
            turn.reasoning.append(&delta);
            assert(log =~= log + tell(run_id, Seq::empty()));
        },
        ProviderChatStreamEvent::ContentDelta(delta) => {
            if turn.finalization {
                turn.final_content.append(&delta);
                assert(log =~= log + tell(run_id, Seq::empty()));
            } else {
                continuation.content.append(&delta);
                let ghost kinds = Seq::<EventKind>::empty().push(EventKind::ContentDelta(delta@));
                sink.emit(AgentEvent::ContentDelta { run_id, delta });
                assert(sink.emitted() =~= log + tell(run_id, kinds));
            }
        },
        ProviderChatStreamEvent::ToolCall(call) => {
            let ghost calls = turn.calls@;
            turn.calls.push(call);
            assert(provider::call_views(turn.calls@) =~= provider::call_views(calls).push(call@));
            assert(log =~= log + tell(run_id, Seq::empty()));
        },
        ProviderChatStreamEvent::Done => {
            assert(log =~= log + tell(run_id, Seq::empty()));
        },
    }
}

/// Takes in a model's turn while it comes in: the conversation, the turn so far, and whoever is told
/// of it.
pub struct TurnStream<'a, S> {
    pub continuation: ExecutionContinuation,
    pub turn: ModelTurn,
    pub run_id: AgentRunId,
    pub sink: &'a mut S,
}

/// Whether a turn, and whoever is told of it, came from one point to another by what a model said.
pub open spec fn heard<'a, S: EventSink>(
    before: TurnStream<'a, S>,
    after: TurnStream<'a, S>,
    said: Seq<StreamEventView>,
) -> bool {
    let reached = accept_all(
        TurnProgress {
            continuation: before.continuation@,
            turn: before.turn@,
            told: Seq::empty(),
        },
        said,
    );
    &&& after.run_id == before.run_id
    &&& after.continuation@ == reached.continuation
    &&& after.turn@ == reached.turn
    &&& after.sink.emitted() == before.sink.emitted() + tell(before.run_id, reached.told)
}

impl<'a, S: EventSink> TurnStream<'a, S> {
    /// Takes in one piece, and tells of it at once.
    pub fn take(&mut self, event: ProviderChatStreamEvent)
        ensures
            heard(*old(self), *final(self), seq![event@]),
            *final(final(self).sink) == *final(old(self).sink),
    {
        proof {
            assert(seq![event@].drop_last() =~= Seq::<StreamEventView>::empty());
            reveal_with_fuel(accept_all, 2);
        }
        accept_event(
            &mut self.continuation,
            &mut self.turn,
            self.run_id,
            event,
            &mut *self.sink,
        );
    }
}

/// The end of a run by an error: the run fails and its watchers are told, unless the run can no
/// longer fail.
pub fn failed<S: EventSink>(run: &mut AgentRun, sink: &mut S, error: AgentExecutionError) -> (r:
    AgentExecutionError)
    ensures
        run::legal(old(run)@.state, AgentState::Failed) ==> {
            &&& r@ == error@
            &&& final(run)@ == (RunView { state: AgentState::Failed, ..old(run)@ })
            &&& final(sink).emitted() == old(sink).emitted().push(
                EventView { run_id: old(run)@.id, kind: EventKind::Failed(diagnosis(error@)) },
            )
        },
        !run::legal(old(run)@.state, AgentState::Failed) ==> {
            &&& r@ == ErrorView::Transition(
                InvalidTransition { from: old(run)@.state, to: AgentState::Failed },
            )
            &&& final(run)@ == old(run)@
            &&& final(sink).emitted() == old(sink).emitted()
        },
{
    match run.transition(AgentState::Failed) {
        Ok(_) => {
            sink.emit(AgentEvent::Failed { run_id: run.id(), diagnostic: error.diagnostic() });
            error
        },
        Err(refused) => AgentExecutionError::Transition(refused),
    }
}

/// The end of a run by an error of the provider: watchers are told in any case.
pub fn fail_provider<S: EventSink>(run: &mut AgentRun, sink: &mut S, error: ProviderError) -> (r:
    AgentExecutionError)
    ensures
        r@ == ErrorView::Provider(error@),
        final(run)@ == (if run::legal(old(run)@.state, AgentState::Failed) {
            RunView { state: AgentState::Failed, ..old(run)@ }
        } else {
            old(run)@
        }),
        final(sink).emitted() == old(sink).emitted().push(
            EventView { run_id: old(run)@.id, kind: EventKind::Failed(diagnosis(r@)) },
        ),
{
    let _ = run.transition(AgentState::Failed);
    let error = AgentExecutionError::Provider(error);
    sink.emit(AgentEvent::Failed { run_id: run.id(), diagnostic: error.diagnostic() });
    error
}

/// The end of a run that was asked to stop.
pub fn cancelled<S: EventSink>(run: &mut AgentRun, sink: &mut S) -> (r: AgentExecutionError)
    ensures
        r@ == ErrorView::Cancelled,
        stopped_by_handle(old(run)@, final(run)@),
        run::terminal(old(run)@.state) ==> final(run)@ == old(run)@ && final(sink).emitted() == old(
            sink).emitted(),
        !run::terminal(old(run)@.state) ==> {
            &&& final(run)@ == (RunView {
                state: AgentState::Cancelled,
                pending: None,
                ..old(run)@
            })
            &&& final(sink).emitted() == old(sink).emitted().push(
                EventView { run_id: old(run)@.id, kind: EventKind::Cancelled },
            )
        },
{
    if !run.state().is_terminal() {
        run.cancel();
        sink.emit(AgentEvent::Cancelled { run_id: run.id() });
    }
    AgentExecutionError::Cancelled
}

/// What a turn of the model is to be.
#[derive(Debug)]
pub struct TurnPlan {
    pub request: ProviderChatRequest,
    pub finalization: bool,
}

/// Begins a turn of the model: counts it, and turns the last one that the budget covers into the
/// final turn.
pub fn begin_turn<S: EventSink>(
    run: &mut AgentRun,
    continuation: &ExecutionContinuation,
    sink: &mut S,
) -> (r: Result<TurnPlan, AgentExecutionError>)
    ensures
        old(run)@.usage.provider_turns < old(run)@.budget.max_provider_turns ==> {
            &&& r is Ok
            &&& r->Ok_0.finalization == (old(run)@.usage.provider_turns + 1 == old(
                run)@.budget.max_provider_turns)
            &&& r->Ok_0.request@ == (if r->Ok_0.finalization {
                final_request(continuation@.request)
            } else {
                continuation@.request
            })
            &&& final(run)@ == (RunView {
                usage: AgentUsage {
                    provider_turns: (old(run)@.usage.provider_turns + 1) as usize,
                    ..old(run)@.usage
                },
                ..old(run)@
            })
            &&& final(sink).emitted() == old(sink).emitted().push(
                EventView { run_id: old(run)@.id, kind: EventKind::ModelStarted },
            )
        },
        old(run)@.usage.provider_turns >= old(run)@.budget.max_provider_turns ==> {
            let error = ErrorView::BudgetExceeded(
                run::exceeded(
                    BudgetResource::ProviderTurns,
                    old(run)@.usage.provider_turns,
                    old(run)@.budget.max_provider_turns,
                ),
            );
            r is Err && failure(
                old(run)@,
                old(sink).emitted(),
                error,
                final(run)@,
                final(sink).emitted(),
                r->Err_0@,
            )
        },
{
    match run.consume_provider_turn() {
        Err(error) => Err(failed(run, sink, AgentExecutionError::BudgetExceeded(error))),
        Ok(_) => {
            let finalization = run.usage().provider_turns == run.budget().max_provider_turns;
            let request = if finalization {
                finalization_request(&continuation.request)
            } else {
                continuation.request.clone()
            };
            sink.emit(AgentEvent::ModelStarted { run_id: run.id() });
            Ok(TurnPlan { request, finalization })
        },
    }
}

/// What `failed` does.
pub open spec fn failure(
    run: RunView,
    log: Seq<EventView>,
    error: ErrorView,
    run_after: RunView,
    log_after: Seq<EventView>,
    result: ErrorView,
) -> bool {
    if run::legal(run.state, AgentState::Failed) {
        &&& result == error
        &&& run_after == (RunView { state: AgentState::Failed, ..run })
        &&& log_after == log.push(
            EventView { run_id: run.id, kind: EventKind::Failed(diagnosis(error)) },
        )
    } else {
        &&& result == ErrorView::Transition(
            InvalidTransition { from: run.state, to: AgentState::Failed },
        )
        &&& run_after == run
        &&& log_after == log
    }
}

/// What is wrong with a turn: in the final turn a model may neither call tools nor write as if it
/// did.
pub open spec fn protocol_error(turn: TurnView) -> Option<Seq<char>> {
    if !turn.finalization {
        None
    } else if turn.calls.len() > 0 {
        Some("provider emitted a tool call while tools were disabled"@)
    } else if tool_markup(turn.final_content) {
        Some("provider emitted tool-call markup while tools were disabled"@)
    } else {
        None
    }
}

/// The assistant message that stands for a turn with tool calls.
pub open spec fn assistant_message(turn: TurnView) -> MessageView {
    MessageView {
        role: ChatRole::Assistant,
        content: Seq::empty(),
        reasoning: if turn.reasoning.len() > 0 {
            Some(turn.reasoning)
        } else {
            None
        },
        tool_call_id: None,
        tool_calls: turn.calls,
    }
}

/// The conversation after a turn that broke no rule.
pub open spec fn settled(before: ContinuationView, turn: TurnView) -> ContinuationView {
    let content = if turn.finalization {
        before.content + turn.final_content
    } else {
        before.content
    };
    if turn.calls.len() == 0 {
        ContinuationView { content, ..before }
    } else {
        ContinuationView {
            content,
            request: RequestView {
                messages: before.request.messages.push(assistant_message(turn)),
                ..before.request
            },
            calls: turn.calls,
            tool_running: false,
            ..before
        }
    }
}

/// What is told at the end of a turn that broke no rule.
pub open spec fn settled_events(turn: TurnView) -> Seq<EventKind> {
    if turn.finalization && turn.final_content.len() > 0 {
        seq![EventKind::ContentDelta(turn.final_content)]
    } else {
        Seq::empty()
    }
}

/// Ends a turn of the model; whether there are tool calls to handle.
pub fn settle_turn<S: EventSink>(
    run: &mut AgentRun,
    continuation: &mut ExecutionContinuation,
    turn: ModelTurn,
    sink: &mut S,
) -> (r: Result<bool, AgentExecutionError>)
    ensures
        match protocol_error(turn@) {
            Some(message) => r is Err && final(continuation)@ == old(continuation)@ && failure(
                old(run)@,
                old(sink).emitted(),
                ErrorView::ProviderProtocol(message),
                final(run)@,
                final(sink).emitted(),
                r->Err_0@,
            ),
            None => {
                &&& final(sink).emitted() == old(sink).emitted() + tell(
                    old(run)@.id,
                    settled_events(turn@),
                )
                &&& turn@.calls.len() == 0 ==> r == Ok::<bool, AgentExecutionError>(false)
                    && final(run)@ == old(run)@ && final(continuation)@ == settled(
                    old(continuation)@,
                    turn@,
                )
                &&& turn@.calls.len() > 0 && run::legal(
                    old(run)@.state,
                    AgentState::WaitingForTool,
                ) ==> r == Ok::<bool, AgentExecutionError>(true) && final(run)@ == (RunView {
                    state: AgentState::WaitingForTool,
                    ..old(run)@
                }) && final(continuation)@ == settled(old(continuation)@, turn@)
                &&& turn@.calls.len() > 0 && !run::legal(
                    old(run)@.state,
                    AgentState::WaitingForTool,
                ) ==> r is Err && r->Err_0@ == ErrorView::Transition(
                    InvalidTransition { from: old(run)@.state, to: AgentState::WaitingForTool },
                ) && final(run)@ == old(run)@
            },
        },
{
    let ghost log = sink.emitted();
    if turn.finalization {
        if turn.calls.len() > 0 {
            return Err(
                failed(
                    run,
                    sink,
                    AgentExecutionError::ProviderProtocol(
                        "provider emitted a tool call while tools were disabled",
                    ),
                ),
            );
        }
        if contains_tool_protocol_markup(&turn.final_content) {
            return Err(
                failed(
                    run,
                    sink,
                    AgentExecutionError::ProviderProtocol(
                        "provider emitted tool-call markup while tools were disabled",
                    ),
                ),
            );
        }
    }
    let ModelTurn { finalization, calls, final_content, reasoning } = turn;
    let ghost told = settled_events(turn@);
    if finalization {
        continuation.content.append(&final_content);
    }
    if finalization && !final_content.as_str().is_empty() {
        sink.emit(AgentEvent::ContentDelta { run_id: run.id(), delta: final_content });
        assert(sink.emitted() =~= log + tell(old(run)@.id, told));
    } else {
        assert(sink.emitted() =~= log + tell(old(run)@.id, told));
    }
    if calls.len() == 0 {
        return Ok(false);
    }
    match run.transition(AgentState::WaitingForTool) {
        Err(error) => {
            return Err(AgentExecutionError::Transition(error));
        },
        Ok(_) => {},
    }
    let reasoning = if !reasoning.as_str().is_empty() {
        Some(reasoning)
    } else {
        None
    };
    let assistant = ProviderChatMessage {
        role: ChatRole::Assistant,
        content: String::new(),
        reasoning,
        tool_call_id: None,
        tool_calls: provider::clone_calls(&calls),
    };
    let ghost messages = continuation.request.messages@;
    assert(assistant@ == assistant_message(turn@));
    continuation.request.messages.push(assistant);
    assert(provider::message_views(continuation.request.messages@) =~= provider::message_views(
        messages,
    ).push(assistant@));
    continuation.calls = calls;
    continuation.tool_running = false;
    Ok(true)
}

/// Counts one tool call of a model and tells of it.
pub fn request_tool<S: EventSink>(run: &mut AgentRun, sink: &mut S) -> (r: Result<
    (),
    AgentExecutionError,
>)
    ensures
        old(run)@.usage.tool_calls < old(run)@.budget.max_tool_calls ==> {
            &&& r is Ok
            &&& final(run)@ == (RunView {
                usage: AgentUsage {
                    tool_calls: (old(run)@.usage.tool_calls + 1) as usize,
                    ..old(run)@.usage
                },
                ..old(run)@
            })
            &&& final(sink).emitted() == old(sink).emitted().push(
                EventView { run_id: old(run)@.id, kind: EventKind::ToolRequested },
            )
        },
        old(run)@.usage.tool_calls >= old(run)@.budget.max_tool_calls ==> {
            let error = ErrorView::BudgetExceeded(
                run::exceeded(
                    BudgetResource::ToolCalls,
                    old(run)@.usage.tool_calls,
                    old(run)@.budget.max_tool_calls,
                ),
            );
            r is Err && failure(
                old(run)@,
                old(sink).emitted(),
                error,
                final(run)@,
                final(sink).emitted(),
                r->Err_0@,
            )
        },
{
    match run.consume_tool_call() {
        Err(error) => Err(failed(run, sink, AgentExecutionError::BudgetExceeded(error))),
        Ok(_) => {
            sink.emit(AgentEvent::ToolRequested { run_id: run.id() });
            Ok(())
        },
    }
}

/// Steps into the running of tools, once for all calls of a turn, and tells that a tool starts.
pub fn start_tool<S: EventSink>(
    run: &mut AgentRun,
    continuation: &mut ExecutionContinuation,
    sink: &mut S,
) -> (r: Result<(), AgentExecutionError>)
    ensures
        old(continuation)@.tool_running || run::legal(old(run)@.state, AgentState::RunningTool)
            ==> {
            &&& r is Ok
            &&& final(run)@ == (RunView {
                state: if old(continuation)@.tool_running {
                    old(run)@.state
                } else {
                    AgentState::RunningTool
                },
                ..old(run)@
            })
            &&& final(continuation)@ == (ContinuationView {
                tool_running: true,
                ..old(continuation)@
            })
            &&& final(sink).emitted() == old(sink).emitted().push(
                EventView { run_id: old(run)@.id, kind: EventKind::ToolStarted },
            )
        },
        !(old(continuation)@.tool_running || run::legal(old(run)@.state, AgentState::RunningTool))
            ==> {
            &&& r is Err
            &&& r->Err_0@ == ErrorView::Transition(
                InvalidTransition { from: old(run)@.state, to: AgentState::RunningTool },
            )
            &&& final(run)@ == old(run)@
            &&& final(continuation)@ == old(continuation)@
            &&& final(sink).emitted() == old(sink).emitted()
        },
{
    if !continuation.tool_running {
        match run.transition(AgentState::RunningTool) {
            Err(error) => {
                return Err(AgentExecutionError::Transition(error));
            },
            Ok(_) => {},
        }
        continuation.tool_running = true;
    }
    sink.emit(AgentEvent::ToolStarted { run_id: run.id() });
    Ok(())
}

/// The message that tells a model what came of its call.
pub open spec fn tool_message_view(id: Option<Seq<char>>, content: Seq<char>) -> MessageView {
    MessageView {
        role: ChatRole::Tool,
        content,
        reasoning: None,
        tool_call_id: id,
        tool_calls: Seq::empty(),
    }
}

/// The message that tells a model what came of its call.
pub fn tool_message(id: Option<String>, content: String) -> (r: ProviderChatMessage)
    ensures
        r@ == tool_message_view(provider::optional_text(id), content@),
{
    let r = ProviderChatMessage {
        role: ChatRole::Tool,
        content,
        reasoning: None,
        tool_call_id: id,
        tool_calls: Vec::new(),
    };
    assert(r@.tool_calls =~= Seq::<ToolCallView>::empty());
    r
}

/// The conversation with one message more.
pub open spec fn with_message(before: ContinuationView, message: MessageView) -> ContinuationView {
    ContinuationView {
        request: RequestView {
            messages: before.request.messages.push(message),
            ..before.request
        },
        ..before
    }
}

/// Records what came of a call.
pub fn record_outcome<S: EventSink>(
    run_id: AgentRunId,
    continuation: &mut ExecutionContinuation,
    call_id: Option<String>,
    outcome: ToolOutcome,
    sink: &mut S,
)
    ensures
        final(continuation)@ == with_message(
            old(continuation)@,
            tool_message_view(provider::optional_text(call_id), outcome.content()),
        ),
        final(sink).emitted() == old(sink).emitted().push(
            EventView { run_id, kind: EventKind::ToolCompleted(outcome is Success) },
        ),
{
    let ghost messages = continuation.request.messages@;
    let (content, succeeded) = match outcome {
        ToolOutcome::Success(content) => (content, true),
        ToolOutcome::ControlledError(content) => (content, false),
    };
    let message = tool_message(call_id, content);
    continuation.request.messages.push(message);
    assert(provider::message_views(continuation.request.messages@) =~= provider::message_views(
        messages,
    ).push(message@));
    sink.emit(AgentEvent::ToolCompleted { run_id, succeeded });
}

/// Makes a call wait for the user: it stands first among the calls still to be handled.
pub fn await_approval<S: EventSink>(
    run: &mut AgentRun,
    continuation: &mut ExecutionContinuation,
    call: ProviderToolCall,
    reason: &str,
    sink: &mut S,
) -> (r: Result<ApprovalRequest, AgentExecutionError>)
    ensures
        final(continuation)@ == (ContinuationView {
            calls: seq![call@] + old(continuation)@.calls,
            ..old(continuation)@
        }),
        final(run)@.pending is Some,
        (final(run)@.pending->0).0@ == old(run)@.next_approval_id,
        (final(run)@.pending->0).1 == call@,
        ({
            let issued = RunView {
                next_approval_id: if old(run)@.next_approval_id == u64::MAX {
                    u64::MAX
                } else {
                    (old(run)@.next_approval_id + 1) as u64
                },
                pending: final(run)@.pending,
                ..old(run)@
            };
            if run::legal(old(run)@.state, AgentState::WaitingForApproval) {
                &&& r is Ok
                &&& final(run)@ == (RunView { state: AgentState::WaitingForApproval, ..issued })
                &&& r->Ok_0@ == run::approval_of(
                    old(run)@.id,
                    (final(run)@.pending->0).0,
                    call@,
                    reason@,
                )
                &&& final(sink).emitted() == old(sink).emitted().push(approval_event(r->Ok_0@))
            } else {
                &&& r is Err
                &&& r->Err_0@ == ErrorView::Transition(
                    InvalidTransition {
                        from: old(run)@.state,
                        to: AgentState::WaitingForApproval,
                    },
                )
                &&& final(run)@ == issued
                &&& final(sink).emitted() == old(sink).emitted()
            }
        }),
{
    let ghost calls = continuation.calls@;
    let first = call.clone();
    continuation.calls.insert(0, first);
    assert(provider::call_views(continuation.calls@) =~= seq![call@] + provider::call_views(calls));
    let approval = run.issue_approval(call, reason);
    match run.transition(AgentState::WaitingForApproval) {
        Err(error) => {
            return Err(AgentExecutionError::Transition(error));
        },
        Ok(_) => {},
    }
    let told = approval.clone();
    sink.emit(
        AgentEvent::ApprovalRequested {
            run_id: told.run_id,
            approval_id: told.approval_id,
            tool_name: told.tool_name,
            arguments: told.arguments,
            reason: told.reason,
        },
    );
    Ok(approval)
}

/// The event that tells of a call that waits for the user.
pub open spec fn approval_event(approval: ApprovalView) -> EventView {
    EventView {
        run_id: approval.run_id,
        kind: EventKind::ApprovalRequested {
            approval_id: approval.approval_id,
            tool_name: approval.tool_name,
            arguments: approval.arguments,
            reason: approval.reason,
        },
    }
}

/// What the model is told of a call that the policy denies.
pub open spec fn denial_text(reason: Seq<char>) -> Seq<char> {
    "tool execution denied by policy: "@ + reason
}

/// What came of a call that the policy denies.
pub fn denied_outcome(reason: &str) -> (r: ToolOutcome)
    ensures
        r is ControlledError,
        r.content() == denial_text(reason@),
{
    let mut message = String::from_str("tool execution denied by policy: ");
    message.append(reason);
    ToolOutcome::ControlledError(message)
}

/// Ends a conversation: watchers are told that the answer is complete.
pub fn complete<S: EventSink>(
    run: &mut AgentRun,
    continuation: ExecutionContinuation,
    sink: &mut S,
) -> (r: Result<AgentExecutionResult, AgentExecutionError>)
    ensures
        run::legal(old(run)@.state, AgentState::Completed) ==> {
            &&& r is Ok
            &&& r->Ok_0@.content == continuation@.content
            &&& r->Ok_0@.thinking == continuation@.thinking
            &&& r->Ok_0@.messages == continuation@.request.messages
            &&& final(run)@ == (RunView { state: AgentState::Completed, ..old(run)@ })
            &&& final(sink).emitted() == old(sink).emitted().push(
                EventView { run_id: old(run)@.id, kind: EventKind::Completed },
            )
        },
        !run::legal(old(run)@.state, AgentState::Completed) ==> {
            &&& r is Err
            &&& r->Err_0@ == ErrorView::Transition(
                InvalidTransition { from: old(run)@.state, to: AgentState::Completed },
            )
            &&& final(run)@ == old(run)@
            &&& final(sink).emitted() == old(sink).emitted()
        },
{
    match run.transition(AgentState::Completed) {
        Err(error) => Err(AgentExecutionError::Transition(error)),
        Ok(_) => {
            sink.emit(AgentEvent::Completed { run_id: run.id() });
            Ok(
                AgentExecutionResult {
                    content: continuation.content,
                    thinking: continuation.thinking,
                    messages: continuation.request.messages,
                },
            )
        },
    }
}

/// What a run gave.
#[derive(Debug, PartialEq)]
pub struct AgentExecutionResult {
    pub content: String,
    pub thinking: String,
    pub messages: Vec<ProviderChatMessage>,
}

/// An `AgentExecutionResult` by what it says.
#[verifier::ext_equal]
pub struct ResultView {
    pub content: Seq<char>,
    pub thinking: Seq<char>,
    pub messages: Seq<MessageView>,
}

impl View for AgentExecutionResult {
    type V = ResultView;

    open spec fn view(&self) -> ResultView {
        ResultView {
            content: self.content@,
            thinking: self.thinking@,
            messages: provider::message_views(self.messages@),
        }
    }
}

impl AgentExecutionResult {
    /// The conversation that the answer belongs to.
    pub fn messages(&self) -> (r: &[ProviderChatMessage])
        ensures
            provider::message_views(r@) == self@.messages,
    {
        self.messages.as_slice()
    }
}

impl Clone for AgentExecutionResult {
    fn clone(&self) -> (r: Self)
        ensures
            r@ == self@,
    {
        AgentExecutionResult {
            content: self.content.clone(),
            thinking: self.thinking.clone(),
            messages: provider::clone_messages(&self.messages),
        }
    }
}

/// Whether a run that came to be cancelled was told so by its handle.
pub open spec fn stopped_by_handle(before: RunView, after: RunView) -> bool {
    &&& after.handle == before.handle
    &&& after.state is Cancelled && !(before.state is Cancelled) ==> run::told_to_stop(
        after.handle,
    )
}

/// What a conversation came to, by what it says.
pub open spec fn outcome_view(
    result: Result<AgentExecutionResult, AgentExecutionError>,
) -> Result<ResultView, ErrorView> {
    match result {
        Ok(answer) => Ok(answer@),
        Err(error) => Err(error@),
    }
}

/// Whether a run that is under way comes, by some answers of the policy, the model and the tools,
/// to this run, this log, these turns of the model, these calls that were run, and this result. A
/// conversation whose next call needs the user waits; any other leaves what waited as it was.
pub open spec fn concluded<Policy: ToolPolicy>(
    from: World,
    waiting: Option<ContinuationView>,
    run_after: RunView,
    log_after: Seq<EventView>,
    past_after: Past,
    waiting_after: Option<ContinuationView>,
    result: Result<AgentExecutionResult, AgentExecutionError>,
) -> bool {
    if result is Err && result->Err_0@ is ApprovalRequired {
        &&& waiting_after is Some
        &&& trace::leads::<Policy>(
            from,
            trace::at(
                run_after,
                waiting_after->0,
                log_after,
                false,
                Phase::Over(outcome_view(result)),
                past_after,
            ),
        )
    } else {
        &&& waiting_after == waiting
        &&& trace::comes_to_end::<Policy>(
            from,
            run_after,
            log_after,
            past_after,
            outcome_view(result),
        )
    }
}

/// A run that has just begun with a request.
pub open spec fn started(
    run: RunView,
    request: RequestView,
    log: Seq<EventView>,
    past: Past,
) -> World {
    trace::at(
        RunView { state: AgentState::RunningModel, ..run },
        fresh(request),
        log.push(EventView { run_id: run.id, kind: EventKind::RunStarted }),
        false,
        Phase::Next,
        past,
    )
}

/// What the beginning of a run comes to. A run that has begun before is refused.
pub open spec fn executed<Policy: ToolPolicy>(
    run: RunView,
    request: RequestView,
    log: Seq<EventView>,
    past: Past,
    waiting: Option<ContinuationView>,
    run_after: RunView,
    log_after: Seq<EventView>,
    past_after: Past,
    waiting_after: Option<ContinuationView>,
    result: Result<AgentExecutionResult, AgentExecutionError>,
) -> bool {
    if run.state is Idle {
        concluded::<Policy>(
            started(run, request, log, past),
            waiting,
            run_after,
            log_after,
            past_after,
            waiting_after,
            result,
        )
    } else {
        &&& outcome_view(result) == Err::<ResultView, ErrorView>(
            ErrorView::Transition(
                InvalidTransition { from: run.state, to: AgentState::Preparing },
            ),
        )
        &&& run_after == run
        &&& log_after == log.push(EventView { run_id: run.id, kind: EventKind::RunStarted })
        &&& past_after == past
        &&& waiting_after == waiting
    }
}

/// Runs conversations with one provider, one set of tools and one policy.
pub struct AgentExecutor<'a, P, T, Policy = ReadOnlyToolPolicy> {
    provider: &'a mut P,
    tools: &'a mut T,
    policy: Policy,
    pending: Option<ExecutionContinuation>,
    looks: Looks,
}

impl<'a, P, T, Policy> AgentExecutor<'a, P, T, Policy> {
    /// The conversation that waits for the user.
    pub closed spec fn waiting(&self) -> Option<ContinuationView> {
        match self.pending {
            Some(continuation) => Some(continuation@),
            None => None,
        }
    }
}

impl<'a, P: ProviderExecutor, T: ToolExecutor, Policy: ToolPolicy> AgentExecutor<
    'a,
    P,
    T,
    Policy,
> {
    /// What the model, the policy and the tools have done so far, and the looks that were taken.
    pub closed spec fn past(&self) -> Past {
        Past {
            asked: self.provider.asked(),
            judged: self.policy.judged(),
            ran: self.tools.ran(),
            looked: self.looks.taken(),
            gives: self.tools.gives(),
        }
    }
}

/// What a provider, a policy and tools have done so far, and the looks that were taken.
pub open spec fn done_by<P: ProviderExecutor, T: ToolExecutor, Policy: ToolPolicy>(
    provider: P,
    policy: Policy,
    tools: T,
    looked: Seq<Look>,
) -> Past {
    Past {
        asked: provider.asked(),
        judged: policy.judged(),
        ran: tools.ran(),
        looked,
        gives: tools.gives(),
    }
}

impl<'a, P: ProviderExecutor, T: ToolExecutor> AgentExecutor<'a, P, T, ReadOnlyToolPolicy> {
    /// An executor under the read-only policy.
    pub fn new(provider: &'a mut P, tools: &'a mut T) -> (r: Self)
        ensures
            r.waiting() is None,
            r.past() == (Past {
                asked: old(provider).asked(),
                judged: Seq::empty(),
                ran: old(tools).ran(),
                looked: Seq::empty(),
                gives: old(tools).gives(),
            }),
    {
        Self::with_policy(provider, tools, ReadOnlyToolPolicy::default())
    }
}

impl<'a, P: ProviderExecutor, T: ToolExecutor, Policy: ToolPolicy> AgentExecutor<
    'a,
    P,
    T,
    Policy,
> {
    /// An executor under a policy.
    pub fn with_policy(provider: &'a mut P, tools: &'a mut T, policy: Policy) -> (r: Self)
        ensures
            r.waiting() is None,
            r.past() == done_by(*old(provider), policy, *old(tools), Seq::empty()),
    {
        AgentExecutor { provider, tools, policy, pending: None, looks: Looks::new() }
    }

    /// Runs the tool of a call.
    fn run_call<S: EventSink>(
        &mut self,
        run: &mut AgentRun,
        continuation: &mut ExecutionContinuation,
        call: &ProviderToolCall,
        sink: &mut S,
    ) -> (r: Result<ToolOutcome, AgentExecutionError>)
        ensures
            final(self).waiting() == old(self).waiting(),
            *final(final(self).provider) == *final(old(self).provider),
            *final(final(self).tools) == *final(old(self).tools),
            stopped_by_handle(old(run)@, final(run)@),
            final(run)@.id == old(run)@.id,
            final(run)@.budget == old(run)@.budget,
            final(run)@.usage == old(run)@.usage,
            final(continuation)@.calls == old(continuation)@.calls,
            ({
                let started = trace::starts(
                    Machine {
                        run: old(run)@,
                        talk: old(continuation)@,
                        log: old(sink).emitted(),
                        approved: false,
                        phase: Phase::Calls,
                    },
                    call@,
                );
                match r {
                    Ok(outcome) => {
                        &&& started == (Machine {
                            run: final(run)@,
                            talk: final(continuation)@,
                            log: final(sink).emitted(),
                            approved: false,
                            phase: Phase::Run(call@),
                        })
                        &&& (old(self).past().gives)(call@, given(Ok(outcome)))
                        &&& final(self).past() == trace::recorded(
                            old(self).past(),
                            started,
                            Step::Ran(call@, given(Ok(outcome))),
                        )
                    },
                    Err(error) => !(error@ is ApprovalRequired) && trace::comes_to_end::<Policy>(
                        World {
                            machine: started,
                            past: old(self).past(),
                        },
                        final(run)@,
                        final(sink).emitted(),
                        final(self).past(),
                        Err(error@),
                    ),
                }
            }),
    {
        let ghost from = World {
            machine: trace::starts(
                Machine {
                    run: run@,
                    talk: continuation@,
                    log: sink.emitted(),
                    approved: false,
                    phase: Phase::Calls,
                },
                call@,
            ),
            past: self.past(),
        };
        proof {
            trace::lemma_leads_start::<Policy>(from);
        }
        match start_tool(run, continuation, sink) {
            Err(error) => {
                proof {
                    trace::lemma_end::<Policy>(from, from, Err(error@));
                }
                return Err(error);
            },
            Ok(_) => {},
        }
        let outcome = self.tools.execute(call);
        match outcome {
            Ok(outcome) => Ok(outcome),
            Err(error) => {
                let ghost s = Step::Ran(call@, GivenView::Broken(error.message@));
                let error = failed(run, sink, AgentExecutionError::Tool(error));
                proof {
                    trace::lemma_ran(from.machine, call@, s->Ran_1);
                    trace::lemma_leads_step::<Policy>(from, from, s);
                    trace::lemma_end::<Policy>(from, trace::advance(from, s), Err(error@));
                }
                Err(error)
            },
        }
    }

    /// Handles the first of the calls of a turn. Whether it needs the user.
    fn handle_call<S: EventSink>(
        &mut self,
        run: &mut AgentRun,
        continuation: &mut ExecutionContinuation,
        approved: bool,
        sink: &mut S,
    ) -> (r: Result<Option<ApprovalRequest>, AgentExecutionError>)
        requires
            old(continuation)@.calls.len() > 0,
        ensures
            final(self).waiting() == old(self).waiting(),
            *final(final(self).provider) == *final(old(self).provider),
            *final(final(self).tools) == *final(old(self).tools),
            stopped_by_handle(old(run)@, final(run)@),
            final(run)@.id == old(run)@.id,
            final(run)@.budget == old(run)@.budget,
            final(run)@.usage.provider_turns == old(run)@.usage.provider_turns,
            ({
                let from = World {
                    machine: trace::takes_call(
                        Machine {
                            run: old(run)@,
                            talk: old(continuation)@,
                            log: old(sink).emitted(),
                            approved,
                            phase: Phase::Calls,
                        },
                    ),
                    past: old(self).past(),
                };
                match r {
                    Ok(None) => {
                        &&& final(continuation)@.calls == old(continuation)@.calls.skip(1)
                        &&& trace::leads::<Policy>(
                            from,
                            World {
                                machine: trace::resumes(
                                    Machine {
                                        run: final(run)@,
                                        talk: final(continuation)@,
                                        log: final(sink).emitted(),
                                        approved: false,
                                        phase: Phase::Calls,
                                    },
                                ),
                                past: final(self).past(),
                            },
                        )
                    },
                    Ok(Some(approval)) => trace::leads::<Policy>(
                        from,
                        trace::at(
                            final(run)@,
                            final(continuation)@,
                            final(sink).emitted(),
                            false,
                            Phase::Over(Err(ErrorView::ApprovalRequired(approval@))),
                            final(self).past(),
                        ),
                    ),
                    Err(error) => !(error@ is ApprovalRequired) && trace::comes_to_end::<Policy>(
                        from,
                        final(run)@,
                        final(sink).emitted(),
                        final(self).past(),
                        Err(error@),
                    ),
                }
            }),
    {
        let ghost from = World {
            machine: trace::takes_call(
                Machine {
                    run: run@,
                    talk: continuation@,
                    log: sink.emitted(),
                    approved,
                    phase: Phase::Calls,
                },
            ),
            past: self.past(),
        };
        let ghost mut world = from;
        proof {
            trace::lemma_leads_start::<Policy>(from);
        }
        let ghost calls = continuation.calls@;
        let call = continuation.calls.remove(0);
        assert(provider::call_views(continuation.calls@) =~= provider::call_views(calls).skip(1));
        let decision = if approved {
            ToolPolicyDecision::Allow
        } else {
            match request_tool(run, sink) {
                Err(error) => {
                    proof {
                        trace::lemma_end::<Policy>(from, from, Err(error@));
                    }
                    return Err(error);
                },
                Ok(_) => {},
            }
            let decision = self.policy.decide(ToolPolicyContext { run_id: run.id() }, &call);
            proof {
                let s = Step::Decided(call@, decision@);
                trace::lemma_decided(from.machine, call@, decision@);
                assert(trace::learnt::<Policy>(from, s));
                trace::lemma_leads_step::<Policy>(from, from, s);
                world = trace::advance(from, s);
            }
            decision
        };
        let ghost allowed = trace::starts(
            Machine {
                run: run@,
                talk: continuation@,
                log: sink.emitted(),
                approved: false,
                phase: Phase::Calls,
            },
            call@,
        );
        let outcome = match decision {
            ToolPolicyDecision::Allow => {
                assert(world.machine == allowed);
                match self.run_call(run, continuation, &call, sink) {
                    Err(error) => {
                        proof {
                            trace::lemma_then_ends::<Policy>(
                                from,
                                world,
                                run@,
                                sink.emitted(),
                                self.past(),
                                Err(error@),
                            );
                        }
                        return Err(error);
                    },
                    Ok(outcome) => {
                        proof {
                            let s = Step::Ran(call@, given(Ok(outcome)));
                            trace::lemma_ran(world.machine, call@, given(Ok(outcome)));
                            trace::lemma_leads_step::<Policy>(from, world, s);
                            world = trace::advance(world, s);
                        }
                        outcome
                    },
                }
            },
            ToolPolicyDecision::Deny { reason } => denied_outcome(&reason),
            ToolPolicyDecision::RequireApproval { reason } => {
                let r = await_approval(run, continuation, call, &reason, sink);
                match r {
                    Err(error) => {
                        proof {
                            trace::lemma_end::<Policy>(from, world, Err(error@));
                        }
                        return Err(error);
                    },
                    Ok(approval) => {
                        return Ok(Some(approval));
                    },
                }
            },
        };
        record_outcome(run.id(), continuation, call.id, outcome, sink);
        Ok(None)
    }

    /// Handles the calls of a turn in their order, up to the first that needs the user.
    fn process_tool_calls<S: EventSink>(
        &mut self,
        run: &mut AgentRun,
        continuation: &mut ExecutionContinuation,
        first_is_approved: bool,
        sink: &mut S,
    ) -> (r: Result<Option<ApprovalRequest>, AgentExecutionError>)
        requires
            old(continuation)@.calls.len() > 0,
        ensures
            final(self).waiting() == old(self).waiting(),
            *final(final(self).provider) == *final(old(self).provider),
            *final(final(self).tools) == *final(old(self).tools),
            stopped_by_handle(old(run)@, final(run)@),
            final(run)@.id == old(run)@.id,
            final(run)@.budget == old(run)@.budget,
            final(run)@.usage.provider_turns == old(run)@.usage.provider_turns,
            ({
                let from = trace::at(
                    old(run)@,
                    old(continuation)@,
                    old(sink).emitted(),
                    first_is_approved,
                    Phase::Calls,
                    old(self).past(),
                );
                match r {
                    Ok(None) => {
                        &&& final(continuation)@.calls.len() == 0
                        &&& trace::leads::<Policy>(
                            from,
                            trace::at(
                                final(run)@,
                                final(continuation)@,
                                final(sink).emitted(),
                                false,
                                Phase::Next,
                                final(self).past(),
                            ),
                        )
                    },
                    Ok(Some(approval)) => trace::leads::<Policy>(
                        from,
                        trace::at(
                            final(run)@,
                            final(continuation)@,
                            final(sink).emitted(),
                            false,
                            Phase::Over(Err(ErrorView::ApprovalRequired(approval@))),
                            final(self).past(),
                        ),
                    ),
                    Err(error) => !(error@ is ApprovalRequired) && trace::comes_to_end::<Policy>(
                        from,
                        final(run)@,
                        final(sink).emitted(),
                        final(self).past(),
                        Err(error@),
                    ),
                }
            }),
    {
        let mut approved = first_is_approved;
        let ghost from = trace::at(
            run@,
            continuation@,
            sink.emitted(),
            first_is_approved,
            Phase::Calls,
            self.past(),
        );
        proof {
            trace::lemma_leads_start::<Policy>(from);
        }
        while continuation.calls.len() > 0
            invariant
                self.waiting() == old(self).waiting(),
                *final(self.provider) == *final(old(self).provider),
                *final(self.tools) == *final(old(self).tools),
                stopped_by_handle(old(run)@, run@),
                run@.id == from.machine.run.id,
                run@.budget == old(run)@.budget,
                run@.usage.provider_turns == old(run)@.usage.provider_turns,
                continuation@.calls.len() == 0 ==> !approved,
                trace::leads::<Policy>(
                    from,
                    World {
                        machine: trace::resumes(
                            Machine {
                                run: run@,
                                talk: continuation@,
                                log: sink.emitted(),
                                approved,
                                phase: Phase::Calls,
                            },
                        ),
                        past: self.past(),
                    },
                ),
                from == trace::at(
                    old(run)@,
                    old(continuation)@,
                    old(sink).emitted(),
                    first_is_approved,
                    Phase::Calls,
                    old(self).past(),
                ),
            decreases continuation@.calls.len(),
        {
            let ghost here = trace::at(
                run@,
                continuation@,
                sink.emitted(),
                approved,
                Phase::Calls,
                self.past(),
            );
            if self.looks.look(
                &run.cancellation(),
                &*self.provider,
                &self.policy,
                &*self.tools,
                &*sink,
            ) {
                let error = cancelled(run, sink);
                proof {
                    let s = Step::Looked(true);
                    trace::lemma_asked_to_stop(here.machine);
                    trace::lemma_leads_step::<Policy>(from, here, s);
                    trace::lemma_end::<Policy>(from, trace::advance(here, s), Err(error@));
                }
                return Err(error);
            }
            let ghost taken = trace::advance(here, Step::Looked(false));
            proof {
                trace::lemma_goes_on(here.machine);
                trace::lemma_leads_step::<Policy>(from, here, Step::Looked(false));
                trace::lemma_same_run(here.machine, Step::Looked(false));
            }
            match self.handle_call(run, continuation, approved, sink) {
                Err(error) => {
                    proof {
                        trace::lemma_then_ends::<Policy>(
                            from,
                            taken,
                            run@,
                            sink.emitted(),
                            self.past(),
                            Err(error@),
                        );
                    }
                    return Err(error);
                },
                Ok(Some(approval)) => {
                    proof {
                        trace::lemma_leads_chain::<Policy>(
                            from,
                            taken,
                            trace::at(
                                run@,
                                continuation@,
                                sink.emitted(),
                                false,
                                Phase::Over(Err(ErrorView::ApprovalRequired(approval@))),
                                self.past(),
                            ),
                        );
                    }
                    return Ok(Some(approval));
                },
                Ok(None) => {
                    approved = false;
                    proof {
                        trace::lemma_leads_chain::<Policy>(
                            from,
                            taken,
                            World {
                                machine: trace::resumes(
                                    Machine {
                                        run: run@,
                                        talk: continuation@,
                                        log: sink.emitted(),
                                        approved: false,
                                        phase: Phase::Calls,
                                    },
                                ),
                                past: self.past(),
                            },
                        );
                    }
                },
            }
        }
        let ghost world = World {
            machine: trace::resumes(
                Machine {
                    run: run@,
                    talk: continuation@,
                    log: sink.emitted(),
                    approved: false,
                    phase: Phase::Calls,
                },
            ),
            past: self.past(),
        };
        match run.transition(AgentState::RunningModel) {
            Err(error) => {
                proof {
                    trace::lemma_end::<Policy>(from, world, Err(ErrorView::Transition(error)));
                }
                Err(AgentExecutionError::Transition(error))
            },
            Ok(_) => Ok(None),
        }
    }

    /// Has one turn of the model.
    fn ask_model<S: EventSink>(
        &mut self,
        run: &mut AgentRun,
        continuation: ExecutionContinuation,
        sink: &mut S,
    ) -> (r: Result<(ExecutionContinuation, ModelTurn), AgentExecutionError>)
        ensures
            final(self).waiting() == old(self).waiting(),
            *final(final(self).provider) == *final(old(self).provider),
            *final(final(self).tools) == *final(old(self).tools),
            stopped_by_handle(old(run)@, final(run)@),
            final(run)@.id == old(run)@.id,
            final(run)@.budget == old(run)@.budget,
            ({
                let from = World {
                    machine: trace::begins(
                        Machine {
                            run: old(run)@,
                            talk: continuation@,
                            log: old(sink).emitted(),
                            approved: false,
                            phase: Phase::Next,
                        },
                    ),
                    past: old(self).past(),
                };
                match r {
                    Ok((talk, turn)) => {
                        &&& turns_left(final(run)@) < turns_left(old(run)@)
                        &&& trace::leads::<Policy>(
                            from,
                            trace::at(
                                final(run)@,
                                talk@,
                                final(sink).emitted(),
                                false,
                                Phase::Heard(turn@),
                                final(self).past(),
                            ),
                        )
                    },
                    Err(error) => !(error@ is ApprovalRequired) && trace::comes_to_end::<Policy>(
                        from,
                        final(run)@,
                        final(sink).emitted(),
                        final(self).past(),
                        Err(error@),
                    ),
                }
            }),
    {
        let ghost from = World {
            machine: trace::begins(
                Machine {
                    run: run@,
                    talk: continuation@,
                    log: sink.emitted(),
                    approved: false,
                    phase: Phase::Next,
                },
            ),
            past: self.past(),
        };
        proof {
            trace::lemma_leads_start::<Policy>(from);
        }
        let plan = match begin_turn(run, &continuation, sink) {
            Err(error) => {
                proof {
                    trace::lemma_end::<Policy>(from, from, Err(error@));
                }
                return Err(error);
            },
            Ok(plan) => plan,
        };
        let mut stream = TurnStream {
            continuation,
            turn: ModelTurn::new(plan.finalization),
            run_id: run.id(),
            sink: &mut *sink,
        };
        let outcome = self.provider.execute(&plan.request, &mut stream);
        let TurnStream { continuation, turn, .. } = stream;
        let ghost s = Step::Asked(self.past().asked.last());
        proof {
            trace::lemma_heard(from.machine, s->Asked_0);
            trace::lemma_leads_step::<Policy>(from, from, s);
        }
        match outcome {
            Err(error) => {
                let error = fail_provider(run, sink, error);
                proof {
                    trace::lemma_end::<Policy>(from, trace::advance(from, s), Err(error@));
                }
                Err(error)
            },
            Ok(_) => Ok((continuation, turn)),
        }
    }

    /// Tells that the answer is coming, and gives it, unless the run is asked to stop.
    fn conclude<S: EventSink>(
        &mut self,
        run: &mut AgentRun,
        continuation: ExecutionContinuation,
        sink: &mut S,
    ) -> (r: Result<AgentExecutionResult, AgentExecutionError>)
        ensures
            final(self).waiting() == old(self).waiting(),
            *final(final(self).provider) == *final(old(self).provider),
            *final(final(self).tools) == *final(old(self).tools),
            trace::comes_to_end::<Policy>(
                trace::at(
                    old(run)@,
                    continuation@,
                    old(sink).emitted(),
                    false,
                    Phase::Answered,
                    old(self).past(),
                ),
                final(run)@,
                final(sink).emitted(),
                final(self).past(),
                outcome_view(r),
            ),
            r is Err ==> !(r->Err_0@ is ApprovalRequired),
            stopped_by_handle(old(run)@, final(run)@),
    {
        let ghost from = trace::at(
            run@,
            continuation@,
            sink.emitted(),
            false,
            Phase::Answered,
            self.past(),
        );
        proof {
            trace::lemma_leads_start::<Policy>(from);
        }
        if self.looks.look(
            &run.cancellation(),
            &*self.provider,
            &self.policy,
            &*self.tools,
            &*sink,
        ) {
            let error = cancelled(run, sink);
            proof {
                let s = Step::Looked(true);
                trace::lemma_asked_to_stop(from.machine);
                trace::lemma_leads_step::<Policy>(from, from, s);
                trace::lemma_end::<Policy>(from, trace::advance(from, s), Err(error@));
            }
            return Err(error);
        }
        let ghost coming = trace::advance(from, Step::Looked(false));
        proof {
            trace::lemma_goes_on(from.machine);
            trace::lemma_leads_step::<Policy>(from, from, Step::Looked(false));
        }
        match run.transition(AgentState::Finalizing) {
            Err(error) => {
                proof {
                    trace::lemma_end::<Policy>(from, coming, Err(ErrorView::Transition(error)));
                }
                return Err(AgentExecutionError::Transition(error));
            },
            Ok(_) => {},
        }
        sink.emit(AgentEvent::Finalizing { run_id: run.id() });
        if self.looks.look(
            &run.cancellation(),
            &*self.provider,
            &self.policy,
            &*self.tools,
            &*sink,
        ) {
            let error = cancelled(run, sink);
            proof {
                let s = Step::Looked(true);
                trace::lemma_asked_to_stop(coming.machine);
                trace::lemma_leads_step::<Policy>(from, coming, s);
                trace::lemma_end::<Policy>(from, trace::advance(coming, s), Err(error@));
            }
            return Err(error);
        }
        let r = complete(run, continuation, sink);
        proof {
            let s = Step::Looked(false);
            trace::lemma_goes_on(coming.machine);
            trace::lemma_leads_step::<Policy>(from, coming, s);
            trace::lemma_end::<Policy>(from, trace::advance(coming, s), outcome_view(r));
        }
        r
    }

    /// Goes on with a conversation until the model gives its answer, the user is needed, or the
    /// run is over.
    fn drive<S: EventSink>(
        &mut self,
        run: &mut AgentRun,
        continuation: ExecutionContinuation,
        first_is_approved: bool,
        sink: &mut S,
    ) -> (r: Result<AgentExecutionResult, AgentExecutionError>)
        ensures
            *final(final(self).provider) == *final(old(self).provider),
            *final(final(self).tools) == *final(old(self).tools),
            stopped_by_handle(old(run)@, final(run)@),
            concluded::<Policy>(
                trace::at(
                    old(run)@,
                    continuation@,
                    old(sink).emitted(),
                    first_is_approved,
                    Phase::Next,
                    old(self).past(),
                ),
                old(self).waiting(),
                final(run)@,
                final(sink).emitted(),
                final(self).past(),
                final(self).waiting(),
                r,
            ),
    {
        let mut current = continuation;
        let mut approved = first_is_approved;
        let ghost from = trace::at(
            run@,
            continuation@,
            sink.emitted(),
            first_is_approved,
            Phase::Next,
            self.past(),
        );
        proof {
            trace::lemma_leads_start::<Policy>(from);
        }
        loop
            invariant
                self.waiting() == old(self).waiting(),
                *final(self.provider) == *final(old(self).provider),
                *final(self.tools) == *final(old(self).tools),
                stopped_by_handle(old(run)@, run@),
                run@.id == from.machine.run.id,
                run@.budget == old(run)@.budget,
                from == trace::at(
                    old(run)@,
                    continuation@,
                    old(sink).emitted(),
                    first_is_approved,
                    Phase::Next,
                    old(self).past(),
                ),
                trace::leads::<Policy>(
                    from,
                    trace::at(
                        run@,
                        current@,
                        sink.emitted(),
                        approved,
                        Phase::Next,
                        self.past(),
                    ),
                ),
            decreases
                    2 * turns_left(run@) + (if current@.calls.len() > 0 {
                        1int
                    } else {
                        0
                    }),
        {
            let ghost here = trace::at(
                run@,
                current@,
                sink.emitted(),
                approved,
                Phase::Next,
                self.past(),
            );
            if self.looks.look(
                &run.cancellation(),
                &*self.provider,
                &self.policy,
                &*self.tools,
                &*sink,
            ) {
                let error = cancelled(run, sink);
                proof {
                    let s = Step::Looked(true);
                    trace::lemma_asked_to_stop(here.machine);
                    trace::lemma_leads_step::<Policy>(from, here, s);
                    trace::lemma_end::<Policy>(from, trace::advance(here, s), Err(error@));
                }
                return Err(error);
            }
            let ghost next = trace::advance(here, Step::Looked(false));
            proof {
                trace::lemma_goes_on(here.machine);
                trace::lemma_leads_step::<Policy>(from, here, Step::Looked(false));
                trace::lemma_same_run(here.machine, Step::Looked(false));
            }
            if current.calls.len() > 0 {
                match self.process_tool_calls(run, &mut current, approved, sink) {
                    Err(error) => {
                        proof {
                            trace::lemma_then_ends::<Policy>(
                                from,
                                next,
                                run@,
                                sink.emitted(),
                                self.past(),
                                Err(error@),
                            );
                        }
                        return Err(error);
                    },
                    Ok(None) => {
                        approved = false;
                        proof {
                            trace::lemma_leads_chain::<Policy>(
                                from,
                                next,
                                trace::at(
                                    run@,
                                    current@,
                                    sink.emitted(),
                                    false,
                                    Phase::Next,
                                    self.past(),
                                ),
                            );
                        }
                    },
                    Ok(Some(approval)) => {
                        proof {
                            trace::lemma_leads_chain::<Policy>(
                                from,
                                next,
                                trace::at(
                                    run@,
                                    current@,
                                    sink.emitted(),
                                    false,
                                    Phase::Over(Err(ErrorView::ApprovalRequired(approval@))),
                                    self.past(),
                                ),
                            );
                        }
                        self.pending = Some(current);
                        return Err(AgentExecutionError::ApprovalRequired(approval));
                    },
                }
            } else {
                let (talk, turn) = match self.ask_model(run, current, sink) {
                    Err(error) => {
                        proof {
                            trace::lemma_then_ends::<Policy>(
                                from,
                                next,
                                run@,
                                sink.emitted(),
                                self.past(),
                                Err(error@),
                            );
                        }
                        return Err(error);
                    },
                    Ok(heard) => heard,
                };
                current = talk;
                let ghost heard = trace::at(
                    run@,
                    current@,
                    sink.emitted(),
                    false,
                    Phase::Heard(turn@),
                    self.past(),
                );
                proof {
                    trace::lemma_leads_chain::<Policy>(from, next, heard);
                }
                if self.looks.look(
                    &run.cancellation(),
                    &*self.provider,
                    &self.policy,
                    &*self.tools,
                    &*sink,
                ) {
                    let error = cancelled(run, sink);
                    proof {
                        let s = Step::Looked(true);
                        trace::lemma_asked_to_stop(heard.machine);
                        trace::lemma_leads_step::<Policy>(from, heard, s);
                        trace::lemma_end::<Policy>(from, trace::advance(heard, s), Err(error@));
                    }
                    return Err(error);
                }
                let ghost settled = trace::advance(heard, Step::Looked(false));
                proof {
                    trace::lemma_goes_on(heard.machine);
                    trace::lemma_leads_step::<Policy>(from, heard, Step::Looked(false));
                }
                approved = false;
                match settle_turn(run, &mut current, turn, sink) {
                    Err(error) => {
                        proof {
                            trace::lemma_end::<Policy>(from, settled, Err(error@));
                        }
                        return Err(error);
                    },
                    Ok(calls) => {
                        if !calls {
                            let r = self.conclude(run, current, sink);
                            proof {
                                trace::lemma_then_ends::<Policy>(
                                    from,
                                    settled,
                                    run@,
                                    sink.emitted(),
                                    self.past(),
                                    outcome_view(r),
                                );
                            }
                            return r;
                        }
                    },
                }
            }
        }
    }

    fn begin<S: EventSink>(
        &mut self,
        run: &mut AgentRun,
        request: ProviderChatRequest,
        sink: &mut S,
    ) -> (r: Result<AgentExecutionResult, AgentExecutionError>)
        ensures
            *final(final(self).provider) == *final(old(self).provider),
            *final(final(self).tools) == *final(old(self).tools),
            stopped_by_handle(old(run)@, final(run)@),
            executed::<Policy>(
                old(run)@,
                request@,
                old(sink).emitted(),
                old(self).past(),
                old(self).waiting(),
                final(run)@,
                final(sink).emitted(),
                final(self).past(),
                final(self).waiting(),
                r,
            ),
    {
        sink.emit(AgentEvent::RunStarted { run_id: run.id() });
        match run.transition(AgentState::Preparing) {
            Err(error) => {
                return Err(AgentExecutionError::Transition(error));
            },
            Ok(_) => {},
        }
        match run.transition(AgentState::RunningModel) {
            Err(error) => {
                return Err(AgentExecutionError::Transition(error));
            },
            Ok(_) => {},
        }
        self.drive(run, ExecutionContinuation::new(request), false, sink)
    }

    /// Takes a request from its beginning to the model's answer, or to whatever comes before it.
    pub fn execute<S: EventSink>(
        &mut self,
        run: &mut AgentRun,
        request: ProviderChatRequest,
        sink: &mut S,
    ) -> (r: Result<AgentExecutionResult, AgentExecutionError>)
        ensures
            stopped_by_handle(old(run)@, final(run)@),
            executed::<Policy>(
                old(run)@,
                request@,
                old(sink).emitted(),
                old(self).past(),
                old(self).waiting(),
                final(run)@,
                final(sink).emitted(),
                final(self).past(),
                final(self).waiting(),
                r,
            ),
    {
        self.begin(run, request, sink)
    }

    /// The call that waits for the user under an approval id, or why there is none.
    fn waiting_call(&self, run: &AgentRun, approval_id: ApprovalId) -> (r: Result<
        ProviderToolCall,
        ApprovalError,
    >)
        ensures
            match r {
                Ok(call) => call@ == (run@.pending->0).1 && run@.pending is Some && (
                approval_problem(run@, self.waiting(), approval_id) is None
                    || !(run@.state is WaitingForApproval)),
                Err(error) => approval_problem(run@, self.waiting(), approval_id) == Some(error),
            },
            r is Ok && run@.state is WaitingForApproval ==> approval_problem(
                run@,
                self.waiting(),
                approval_id,
            ) is None,
            r is Ok && !(run@.state is WaitingForApproval) ==> approval_problem(
                run@,
                self.waiting(),
                approval_id,
            ) == Some(ApprovalError::NotPending),
    {
        match run.pending_call() {
            None => Err(ApprovalError::NotPending),
            Some((pending_id, call)) => {
                if !pending_id.is_same(approval_id) {
                    return Err(ApprovalError::UnknownApproval);
                }
                match &self.pending {
                    None => Err(ApprovalError::NotPending),
                    Some(continuation) => {
                        if continuation.calls.len() == 0 || !continuation.calls[0].is_same(&call) {
                            Err(ApprovalError::UnknownApproval)
                        } else {
                            Ok(call)
                        }
                    },
                }
            },
        }
    }

    /// Goes on with a conversation whose first call the user approved.
    pub fn approve<S: EventSink>(
        &mut self,
        run: &mut AgentRun,
        approval_id: ApprovalId,
        sink: &mut S,
    ) -> (r: Result<AgentExecutionResult, AgentExecutionError>)
        ensures
            stopped_by_handle(old(run)@, final(run)@),
            match approval_problem(old(run)@, old(self).waiting(), approval_id) {
                Some(error) => {
                    &&& r is Err
                    &&& r->Err_0@ == ErrorView::Approval(error)
                    &&& final(run)@ == old(run)@
                    &&& final(sink).emitted() == old(sink).emitted()
                    &&& final(self).waiting() == old(self).waiting()
                    &&& final(self).past() == old(self).past()
                },
                None => concluded::<Policy>(
                    trace::at(
                        RunView { pending: None, ..old(run)@ },
                        old(self).waiting()->0,
                        old(sink).emitted(),
                        true,
                        Phase::Next,
                        old(self).past(),
                    ),
                    None,
                    final(run)@,
                    final(sink).emitted(),
                    final(self).past(),
                    final(self).waiting(),
                    r,
                ),
            },
    {
        match self.waiting_call(run, approval_id) {
            Err(error) => {
                return Err(AgentExecutionError::Approval(error));
            },
            Ok(_) => {},
        }
        match run.resolve_approval(approval_id) {
            Err(error) => {
                return Err(AgentExecutionError::Approval(error));
            },
            Ok(_) => {},
        }
        match self.pending.take() {
            None => Err(AgentExecutionError::Approval(ApprovalError::NotPending)),
            Some(continuation) => self.drive(run, continuation, true, sink),
        }
    }

    /// Goes on with a conversation whose first call the user denied: the model is told so.
    pub fn deny<S: EventSink>(
        &mut self,
        run: &mut AgentRun,
        approval_id: ApprovalId,
        sink: &mut S,
    ) -> (r: Result<AgentExecutionResult, AgentExecutionError>)
        ensures
            stopped_by_handle(old(run)@, final(run)@),
            match approval_problem(old(run)@, old(self).waiting(), approval_id) {
                Some(error) => {
                    &&& r is Err
                    &&& r->Err_0@ == ErrorView::Approval(error)
                    &&& final(run)@ == old(run)@
                    &&& final(sink).emitted() == old(sink).emitted()
                    &&& final(self).waiting() == old(self).waiting()
                    &&& final(self).past() == old(self).past()
                },
                None => concluded::<Policy>(
                    trace::at(
                        RunView {
                            pending: None,
                            state: state_after_denial(old(self).waiting()->0),
                            ..old(run)@
                        },
                        denied(old(self).waiting()->0, (old(run)@.pending->0).1),
                        old(sink).emitted().push(
                            EventView {
                                run_id: old(run)@.id,
                                kind: EventKind::ToolCompleted(false),
                            },
                        ),
                        false,
                        Phase::Next,
                        old(self).past(),
                    ),
                    None,
                    final(run)@,
                    final(sink).emitted(),
                    final(self).past(),
                    final(self).waiting(),
                    r,
                ),
            },
    {
        match self.waiting_call(run, approval_id) {
            Err(error) => {
                return Err(AgentExecutionError::Approval(error));
            },
            Ok(_) => {},
        }
        let call = match run.resolve_approval(approval_id) {
            Err(error) => {
                return Err(AgentExecutionError::Approval(error));
            },
            Ok(call) => call,
        };
        match self.pending.take() {
            None => Err(AgentExecutionError::Approval(ApprovalError::NotPending)),
            Some(continuation) => {
                let mut continuation = continuation;
                let ghost waiting = continuation@;
                let ghost calls = continuation.calls@;
                continuation.calls.remove(0);
                assert(provider::call_views(continuation.calls@) =~= provider::call_views(
                    calls,
                ).skip(1));
                record_outcome(
                    run.id(),
                    &mut continuation,
                    call.id,
                    ToolOutcome::ControlledError(
                        String::from_str("tool execution denied by approval decision"),
                    ),
                    sink,
                );
                let next = if continuation.calls.len() > 0 {
                    if continuation.tool_running {
                        AgentState::RunningTool
                    } else {
                        AgentState::WaitingForTool
                    }
                } else {
                    AgentState::RunningModel
                };
                match run.transition(next) {
                    Err(error) => {
                        return Err(AgentExecutionError::Transition(error));
                    },
                    Ok(_) => {},
                }
                self.drive(run, continuation, false, sink)
            },
        }
    }
}

/// Takes one request from its beginning to the model's answer, or to whatever comes before it.
pub(crate) fn execute_once<P: ProviderExecutor, T: ToolExecutor, Policy: ToolPolicy, S: EventSink>(
    provider: &mut P,
    tools: &mut T,
    policy: Policy,
    run: &mut AgentRun,
    request: ProviderChatRequest,
    sink: &mut S,
) -> (r: Result<AgentExecutionResult, AgentExecutionError>)
    ensures
        exists|judge: Policy, looks: Looks, waiting: Option<ContinuationView>| #[trigger]
            executed::<Policy>(
                old(run)@,
                request@,
                old(sink).emitted(),
                done_by(*old(provider), policy, *old(tools), Seq::empty()),
                None,
                final(run)@,
                final(sink).emitted(),
                done_by(*final(provider), judge, *final(tools), looks.taken()),
                waiting,
                r,
            ),
        stopped_by_handle(old(run)@, final(run)@),
{
    let mut executor = AgentExecutor { provider, tools, policy, pending: None, looks: Looks::new() };
    let r = executor.begin(run, request, sink);
    let ghost waiting = executor.waiting();
    let ghost judge = executor.policy;
    let ghost looks = executor.looks;
    assert(executed::<Policy>(
        old(run)@,
        request@,
        old(sink).emitted(),
        done_by(*old(provider), policy, *old(tools), Seq::empty()),
        None,
        run@,
        sink.emitted(),
        done_by(*executor.provider, judge, *executor.tools, looks.taken()),
        waiting,
        r,
    ));
    r
}

/// Why no call waits for the user under an approval id: none does, or it waits under another id,
/// or the conversation that waits goes on with another call.
pub open spec fn approval_problem(
    run: RunView,
    waiting: Option<ContinuationView>,
    approval_id: ApprovalId,
) -> Option<ApprovalError> {
    match run.pending {
        None => Some(ApprovalError::NotPending),
        Some((pending_id, call)) => if pending_id@ != approval_id@ {
            Some(ApprovalError::UnknownApproval)
        } else {
            match waiting {
                None => Some(ApprovalError::NotPending),
                Some(talk) => if talk.calls.len() == 0 || !provider::same_call(
                    talk.calls[0],
                    call,
                ) {
                    Some(ApprovalError::UnknownApproval)
                } else if !(run.state is WaitingForApproval) {
                    Some(ApprovalError::NotPending)
                } else {
                    None
                },
            }
        },
    }
}

/// A conversation whose first call the user denied.
pub open spec fn denied(talk: ContinuationView, call: ToolCallView) -> ContinuationView {
    with_message(
        ContinuationView { calls: talk.calls.skip(1), ..talk },
        tool_message_view(call.id, "tool execution denied by approval decision"@),
    )
}

/// Where a run stands once the user denied the first call of a conversation.
pub open spec fn state_after_denial(talk: ContinuationView) -> AgentState {
    if talk.calls.len() > 1 {
        if talk.tool_running {
            AgentState::RunningTool
        } else {
            AgentState::WaitingForTool
        }
    } else {
        AgentState::RunningModel
    }
}


/// How many turns of the model the budget still covers.
pub open spec fn turns_left(run: RunView) -> int {
    if run.usage.provider_turns < run.budget.max_provider_turns {
        run.budget.max_provider_turns - run.usage.provider_turns
    } else {
        0
    }
}

/// In the final turn a model is offered no tools and sees no assistant and no tool message.
pub proof fn law_final_request_is_without_tools(request: RequestView)
    ensures
        final_request(request).tools is None,
        forall|k: int|
            0 <= k < final_request(request).messages.len() ==> kept_for_final(
                #[trigger] final_request(request).messages[k],
            ),
{
    let keep = |m: MessageView| kept_for_final(m);
    let kept = request.messages.filter(keep);
    assert forall|k: int| 0 <= k < final_request(request).messages.len() implies kept_for_final(
        #[trigger] final_request(request).messages[k],
    ) by {
        if k < kept.len() {
            request.messages.lemma_filter_pred(keep, k);
            assert(keep(kept[k]));
        }
    }
}

} // verus!
