//! Runs of the agent, and the executor that drives them.

use std::sync::{Arc, Mutex};

use ide_core::executor::{
    contains_tool_protocol_markup, AgentExecutionError, AgentExecutor, ProviderExecutor, ToolExecutor, ToolInfrastructureError,
    ToolOutcome, ToolPolicy, ToolPolicyContext, ToolPolicyDecision, TurnStream,
};
use ide_core::provider::{
    ChatRole, ProviderChatMessage, ProviderChatRequest, ProviderChatStreamEvent, ProviderError,
    ProviderToolCall, ProviderToolDefinition,
};
use ide_core::run::{
    bounded_arguments, concise_diagnostic, is_stale_event, AgentBudget, AgentEvent, AgentFailureDiagnostic, AgentFailureKind, AgentRun,
    AgentRunId, AgentState, AgentUsage, ApprovalError, ApprovalId, ApprovalRequest, BudgetExceeded, BudgetResource,
    Cancellation, EventLog, EventSink, InvalidTransition,
};

fn object_schema() -> serde_json::Value {
    let mut schema = serde_json::Map::new();
    schema.insert("type".into(), serde_json::Value::String("object".into()));
    serde_json::Value::Object(schema)
}

fn budget() -> AgentBudget {
    AgentBudget::new(2, 2)
}

fn request() -> ProviderChatRequest {
    ProviderChatRequest {
        model: "fake".into(),
        messages: vec![ProviderChatMessage {
            role: ChatRole::User,
            content: "hello".into(),
            reasoning: None,
            tool_call_id: None,
            tool_calls: Vec::new(),
        }],
        think: None,
        tools: Some(Vec::new()),
    }
}

struct FakeProvider {
    scripts: Vec<Result<Vec<ProviderChatStreamEvent>, ProviderError>>,
    calls: usize,
    requests: Vec<ProviderChatRequest>,
}

impl ProviderExecutor for FakeProvider {
    fn execute<S: EventSink>(
        &mut self,
        request: &ProviderChatRequest,
        stream: &mut TurnStream<'_, S>,
    ) -> Result<(), ProviderError> {
        self.requests.push(request.clone());
        let script = self.scripts.get(self.calls).cloned().unwrap_or_else(|| {
            Ok(vec![
                ProviderChatStreamEvent::ContentDelta("done".into()),
                ProviderChatStreamEvent::Done,
            ])
        });
        self.calls += 1;
        for event in script? {
            stream.take(event);
        }
        Ok(())
    }
}

struct FakeTools {
    outcomes: Vec<Result<ToolOutcome, ToolInfrastructureError>>,
    calls: Vec<String>,
}

struct ScriptedPolicy {
    decisions: Vec<ToolPolicyDecision>,
    calls: Arc<Mutex<Vec<(AgentRunId, String)>>>,
}

impl ToolPolicy for ScriptedPolicy {
    fn decide(
        &mut self,
        context: ToolPolicyContext,
        call: &ProviderToolCall,
    ) -> ToolPolicyDecision {
        self.calls
            .lock()
            .unwrap()
            .push((context.run_id, call.name.clone()));
        self.decisions
            .get(self.calls.lock().unwrap().len() - 1)
            .cloned()
            .unwrap_or(ToolPolicyDecision::Deny {
                reason: "no scripted decision".into(),
            })
    }
}

impl ToolExecutor for FakeTools {
    fn execute(
        &mut self,
        call: &ProviderToolCall,
    ) -> Result<ToolOutcome, ToolInfrastructureError> {
        self.calls.push(call.name.clone());
        self.outcomes
            .get(self.calls.len() - 1)
            .cloned()
            .unwrap_or_else(|| Ok(ToolOutcome::Success("tool-result".into())))
    }
}

struct CancellingProvider {
    cancellation: Cancellation,
    calls: usize,
}

impl ProviderExecutor for CancellingProvider {
    fn execute<S: EventSink>(
        &mut self,
        _: &ProviderChatRequest,
        stream: &mut TurnStream<'_, S>,
    ) -> Result<(), ProviderError> {
        self.calls += 1;
        stream.take(tool_call("cancel", "read_file"));
        stream.take(ProviderChatStreamEvent::Done);
        self.cancellation.cancel();
        Ok(())
    }
}

struct CancellingTool {
    cancellation: Cancellation,
    calls: usize,
}

impl ToolExecutor for CancellingTool {
    fn execute(
        &mut self,
        _: &ProviderToolCall,
    ) -> Result<ToolOutcome, ToolInfrastructureError> {
        self.calls += 1;
        self.cancellation.cancel();
        Ok(ToolOutcome::Success("cancelled after tool".into()))
    }
}

fn tool_call(id: &str, name: &str) -> ProviderChatStreamEvent {
    ProviderChatStreamEvent::ToolCall(ProviderToolCall {
        id: Some(id.into()),
        name: name.into(),
        arguments: serde_json::Value::Object(serde_json::Map::new()),
    })
}

#[test]
fn new_run_starts_idle_with_zero_usage() {
    let run = AgentRun::new(AgentRunId::new(7), budget());
    assert_eq!(run.state(), AgentState::Idle);
    assert_eq!(run.usage(), AgentUsage::default());
}

#[test]
fn happy_path_reaches_completed() {
    let mut run = AgentRun::new(AgentRunId::new(1), budget());
    for state in [
        AgentState::Preparing,
        AgentState::RunningModel,
        AgentState::Finalizing,
        AgentState::Completed,
    ] {
        run.transition(state).unwrap();
    }
    assert_eq!(run.state(), AgentState::Completed);
}

#[test]
fn tool_path_returns_to_model() {
    let mut run = AgentRun::new(AgentRunId::new(1), budget());
    for state in [
        AgentState::Preparing,
        AgentState::RunningModel,
        AgentState::WaitingForTool,
        AgentState::RunningTool,
        AgentState::RunningModel,
    ] {
        run.transition(state).unwrap();
    }
    assert_eq!(run.state(), AgentState::RunningModel);
}

#[test]
fn invalid_transition_is_typed_and_terminal_states_are_terminal() {
    let mut run = AgentRun::new(AgentRunId::new(1), budget());
    assert_eq!(
        run.transition(AgentState::Completed),
        Err(InvalidTransition {
            from: AgentState::Idle,
            to: AgentState::Completed
        })
    );
    run.transition(AgentState::Preparing).unwrap();
    run.transition(AgentState::Failed).unwrap();
    assert!(run.state().is_terminal());
    assert!(run.transition(AgentState::RunningModel).is_err());
    assert!(!run.cancel());
}

#[test]
fn cancellation_is_idempotent_and_cannot_reactivate() {
    let mut run = AgentRun::new(AgentRunId::new(2), budget());
    assert!(run.cancel());
    assert!(!run.cancel());
    assert_eq!(run.state(), AgentState::Cancelled);
    assert!(run.cancellation().is_cancelled());
    assert!(run.transition(AgentState::Preparing).is_err());
}

#[test]
fn budget_allows_exact_limit_and_rejects_exhaustion() {
    let mut run = AgentRun::new(AgentRunId::new(3), budget());
    assert!(run.consume_provider_turn().is_ok());
    assert!(run.consume_provider_turn().is_ok());
    assert_eq!(
        run.consume_provider_turn(),
        Err(BudgetExceeded {
            resource: BudgetResource::ProviderTurns,
            limit: 2,
            attempted: 3
        })
    );
    assert_eq!(run.usage().provider_turns, 2);
    assert!(run.consume_tool_call().is_ok());
    assert!(run.consume_tool_call().is_ok());
    assert!(run.consume_tool_call().is_err());
    assert_eq!(run.usage().tool_calls, 2);
}

#[test]
fn cancellation_primitive_is_shared_and_one_way() {
    let first = Cancellation::default();
    let second = first.clone();
    assert!(!first.is_cancelled());
    assert!(second.cancel());
    assert!(!first.cancel());
    assert!(first.is_cancelled());
    assert!(second.is_cancelled());
}

#[test]
fn ids_are_deterministic_distinct_and_events_are_attributable() {
    let first = AgentRunId::new(10);
    let second = AgentRunId::new(11);
    assert_ne!(first, second);
    assert_eq!(AgentRunId::new(10), first);
    let event = AgentEvent::ContentDelta {
        run_id: first,
        delta: "x".into(),
    };
    assert_eq!(event.run_id(), first);
    assert!(is_stale_event(&event, second));
    assert!(!is_stale_event(&event, first));
}

#[test]
fn simple_completion_emits_content_and_completes() {
    let mut provider = FakeProvider {
        scripts: vec![Ok(vec![
            ProviderChatStreamEvent::ContentDelta("hello".into()),
            ProviderChatStreamEvent::Done,
        ])],
        calls: 0,
        requests: Vec::new(),
    };
    let mut tools = FakeTools {
        outcomes: Vec::new(),
        calls: Vec::new(),
    };
    let mut run = AgentRun::new(AgentRunId::new(20), AgentBudget::new(1, 1));
    let mut log = EventLog::default();
    let result = AgentExecutor::new(&mut provider, &mut tools)
        .execute(&mut run, request(), &mut log)
        .unwrap();
    assert_eq!(result.content, "hello");
    assert_eq!(provider.calls, 1);
    assert_eq!(run.usage().provider_turns, 1);
    assert_eq!(run.state(), AgentState::Completed);
    assert!(matches!(log.events.last(), Some(AgentEvent::Completed { .. })));
}

#[test]
fn one_tool_round_preserves_provider_local_messages() {
    let mut provider = FakeProvider {
        scripts: vec![
            Ok(vec![
                tool_call("call-1", "read_file"),
                ProviderChatStreamEvent::Done,
            ]),
            Ok(vec![
                ProviderChatStreamEvent::ContentDelta("done".into()),
                ProviderChatStreamEvent::Done,
            ]),
        ],
        calls: 0,
        requests: Vec::new(),
    };
    let mut tools = FakeTools {
        outcomes: vec![Ok(ToolOutcome::Success("contents".into()))],
        calls: Vec::new(),
    };
    let mut run = AgentRun::new(AgentRunId::new(21), AgentBudget::new(2, 1));
    let mut log = EventLog::default();
    let result = AgentExecutor::new(&mut provider, &mut tools)
        .execute(&mut run, request(), &mut log)
        .unwrap();
    assert_eq!(result.content, "done");
    assert_eq!(provider.calls, 2);
    assert_eq!(tools.calls, vec!["read_file"]);
    assert_eq!(result.messages().len(), 3);
    assert_eq!(result.messages()[1].role, ChatRole::Assistant);
    assert_eq!(result.messages()[2].role, ChatRole::Tool);
    assert_eq!(result.messages()[2].content, "contents");
    assert!(matches!(log.events[2], AgentEvent::ToolRequested { .. }));
    assert!(matches!(log.events[3], AgentEvent::ToolStarted { .. }));
    assert!(matches!(
        log.events[4],
        AgentEvent::ToolCompleted {
            succeeded: true,
            ..
        }
    ));
}

#[test]
fn reasoning_replay_is_preserved_separately_from_visible_thinking() {
    let mut provider = FakeProvider {
        scripts: vec![
            Ok(vec![
                ProviderChatStreamEvent::ThinkingDelta("visible-a".into()),
                ProviderChatStreamEvent::ReasoningDelta("reasoning-a".into()),
                tool_call("call-1", "read_file"),
                ProviderChatStreamEvent::Done,
            ]),
            Ok(vec![
                ProviderChatStreamEvent::ThinkingDelta("visible-b".into()),
                ProviderChatStreamEvent::ReasoningDelta("reasoning-b".into()),
                tool_call("call-2", "read_file"),
                ProviderChatStreamEvent::Done,
            ]),
            Ok(vec![
                ProviderChatStreamEvent::ContentDelta("done".into()),
                ProviderChatStreamEvent::Done,
            ]),
        ],
        calls: 0,
        requests: Vec::new(),
    };
    let mut tools = FakeTools {
        outcomes: vec![
            Ok(ToolOutcome::Success("contents-a".into())),
            Ok(ToolOutcome::Success("contents-b".into())),
        ],
        calls: Vec::new(),
    };
    let mut run = AgentRun::new(AgentRunId::new(45), AgentBudget::new(3, 2));
    let mut log = EventLog::default();
    let result = AgentExecutor::new(&mut provider, &mut tools)
        .execute(&mut run, request(), &mut log)
        .unwrap();

    assert_eq!(result.thinking, "visible-avisible-b");
    assert_eq!(
        log.events
            .iter()
            .filter(|event| matches!(event, AgentEvent::ThinkingDelta { .. }))
            .count(),
        2
    );
    assert!(!log.events.iter().any(|event| matches!(
        event,
        AgentEvent::ThinkingDelta { delta, .. }
            if delta.contains("reasoning")
    )));
    assert_eq!(
        provider.requests[1].messages[1].reasoning.as_deref(),
        Some("reasoning-a")
    );
    assert_eq!(
        provider.requests[1].messages[1].tool_calls[0].id.as_deref(),
        Some("call-1")
    );
    assert_eq!(
        result.messages()[1].reasoning.as_deref(),
        Some("reasoning-a")
    );
    assert_eq!(
        result.messages()[3].reasoning.as_deref(),
        Some("reasoning-b")
    );
    assert_eq!(result.messages()[1].content, "");
    assert!(provider.requests[2].tools.is_none());
    assert!(
        provider.requests[2]
            .messages
            .iter()
            .all(|message| !matches!(message.role, ChatRole::Assistant | ChatRole::Tool))
    );
    assert!(
        provider.requests[2]
            .messages
            .iter()
            .all(|message| message.reasoning.is_none() && message.tool_calls.is_empty())
    );
}

#[test]
fn multiple_tool_rounds_preserve_reasoning_by_turn() {
    let mut provider = FakeProvider {
        scripts: vec![
            Ok(vec![
                ProviderChatStreamEvent::ThinkingDelta("visible-a".into()),
                ProviderChatStreamEvent::ReasoningDelta("reasoning-a".into()),
                tool_call("call-1", "read_file"),
                ProviderChatStreamEvent::Done,
            ]),
            Ok(vec![
                ProviderChatStreamEvent::ThinkingDelta("visible-b".into()),
                ProviderChatStreamEvent::ReasoningDelta("reasoning-b".into()),
                tool_call("call-2", "read_file"),
                ProviderChatStreamEvent::Done,
            ]),
            Ok(vec![
                ProviderChatStreamEvent::ReasoningDelta("reasoning-c".into()),
                tool_call("call-3", "read_file"),
                ProviderChatStreamEvent::Done,
            ]),
            Ok(vec![
                ProviderChatStreamEvent::ContentDelta("done".into()),
                ProviderChatStreamEvent::Done,
            ]),
        ],
        calls: 0,
        requests: Vec::new(),
    };
    let mut tools = FakeTools {
        outcomes: vec![
            Ok(ToolOutcome::Success("contents-a".into())),
            Ok(ToolOutcome::Success("contents-b".into())),
            Ok(ToolOutcome::Success("contents-c".into())),
        ],
        calls: Vec::new(),
    };
    let mut run = AgentRun::new(AgentRunId::new(46), AgentBudget::new(4, 3));
    let mut log = EventLog::default();
    let result = AgentExecutor::new(&mut provider, &mut tools)
        .execute(&mut run, request(), &mut log)
        .unwrap();

    assert_eq!(result.thinking, "visible-avisible-b");
    assert!(!log.events.iter().any(|event| matches!(
        event,
        AgentEvent::ThinkingDelta { delta, .. }
            if delta.contains("reasoning")
    )));
    assert_eq!(
        provider.requests[1].messages[1].reasoning.as_deref(),
        Some("reasoning-a")
    );
    assert_eq!(
        provider.requests[2].messages[1].reasoning.as_deref(),
        Some("reasoning-a")
    );
    assert_eq!(
        provider.requests[2].messages[3].reasoning.as_deref(),
        Some("reasoning-b")
    );
    assert_eq!(
        result
            .messages()
            .iter()
            .filter_map(|message| message.reasoning.as_deref())
            .collect::<Vec<_>>(),
        vec!["reasoning-a", "reasoning-b", "reasoning-c"]
    );
    assert_eq!(tools.calls, vec!["read_file", "read_file", "read_file"]);
    assert!(provider.requests[3].tools.is_none());
    assert!(
        provider.requests[3]
            .messages
            .iter()
            .all(|message| !matches!(message.role, ChatRole::Assistant | ChatRole::Tool))
    );
    assert!(
        provider.requests[3]
            .messages
            .iter()
            .all(|message| message.reasoning.is_none() && message.tool_calls.is_empty())
    );
}

#[test]
fn provider_local_reasoning_is_isolated_between_runs() {
    let mut provider = FakeProvider {
        scripts: vec![
            Ok(vec![
                ProviderChatStreamEvent::ReasoningDelta("run-a reasoning".into()),
                tool_call("run-a-call", "read_file"),
                ProviderChatStreamEvent::Done,
            ]),
            Ok(vec![
                ProviderChatStreamEvent::ContentDelta("run-a done".into()),
                ProviderChatStreamEvent::Done,
            ]),
            Ok(vec![
                ProviderChatStreamEvent::ReasoningDelta("run-b reasoning".into()),
                tool_call("run-b-call", "read_file"),
                ProviderChatStreamEvent::Done,
            ]),
            Ok(vec![
                ProviderChatStreamEvent::ContentDelta("run-b done".into()),
                ProviderChatStreamEvent::Done,
            ]),
        ],
        calls: 0,
        requests: Vec::new(),
    };
    let mut tools = FakeTools {
        outcomes: vec![
            Ok(ToolOutcome::Success("run-a result".into())),
            Ok(ToolOutcome::Success("run-b result".into())),
        ],
        calls: Vec::new(),
    };
    let mut run_a = AgentRun::new(AgentRunId::new(47), AgentBudget::new(2, 1));
    let mut run_b = AgentRun::new(AgentRunId::new(48), AgentBudget::new(2, 1));
    let mut log_a = EventLog::default();
    let mut log_b = EventLog::default();
    let mut executor = AgentExecutor::new(&mut provider, &mut tools);
    let result_a = executor
        .execute(&mut run_a, request(), &mut log_a)
        .unwrap();
    let result_b = executor
        .execute(&mut run_b, request(), &mut log_b)
        .unwrap();

    assert_eq!(
        result_a.messages()[1].reasoning.as_deref(),
        Some("run-a reasoning")
    );
    assert_eq!(
        result_b.messages()[1].reasoning.as_deref(),
        Some("run-b reasoning")
    );
    assert!(
        !result_b
            .messages()
            .iter()
            .any(|message| message.reasoning.as_deref() == Some("run-a reasoning"))
    );
    assert!(
        provider.requests[2..]
            .iter()
            .flat_map(|request| request.messages.iter())
            .all(|message| message.reasoning.as_deref() != Some("run-a reasoning"))
    );
    assert!(log_a.events.iter().all(|event| event.run_id() == run_a.id()));
    assert!(log_b.events.iter().all(|event| event.run_id() == run_b.id()));
    assert!(is_stale_event(&log_a.events[0], run_b.id()));
    assert!(!is_stale_event(&log_b.events[0], run_b.id()));
    assert!(!run_a.cancel());
    assert_eq!(run_b.state(), AgentState::Completed);
}

#[test]
fn multiple_tools_are_sequential_and_ordered() {
    let mut provider = FakeProvider {
        scripts: vec![
            Ok(vec![
                tool_call("a", "read_file"),
                tool_call("b", "read_file"),
                ProviderChatStreamEvent::Done,
            ]),
            Ok(vec![ProviderChatStreamEvent::Done]),
        ],
        calls: 0,
        requests: Vec::new(),
    };
    let mut tools = FakeTools {
        outcomes: vec![
            Ok(ToolOutcome::Success("A".into())),
            Ok(ToolOutcome::Success("B".into())),
        ],
        calls: Vec::new(),
    };
    let mut run = AgentRun::new(AgentRunId::new(22), AgentBudget::new(2, 2));
    let mut log = EventLog::default();
    let result = AgentExecutor::new(&mut provider, &mut tools)
        .execute(&mut run, request(), &mut log)
        .unwrap();
    assert_eq!(tools.calls, vec!["read_file", "read_file"]);
    assert_eq!(result.messages()[2].content, "A");
    assert_eq!(result.messages()[3].content, "B");
    assert_eq!(run.usage().tool_calls, 2);
    assert!(matches!(log.events[2], AgentEvent::ToolRequested { .. }));
    assert!(matches!(log.events[7], AgentEvent::ToolCompleted { .. }));
}

#[test]
fn policy_allow_is_consulted_and_executor_runs_once() {
    let mut provider = FakeProvider {
        scripts: vec![
            Ok(vec![
                tool_call("allow-1", "read_file"),
                ProviderChatStreamEvent::Done,
            ]),
            Ok(vec![
                ProviderChatStreamEvent::ContentDelta("done".into()),
                ProviderChatStreamEvent::Done,
            ]),
        ],
        calls: 0,
        requests: Vec::new(),
    };
    let mut tools = FakeTools {
        outcomes: vec![Ok(ToolOutcome::Success("file".into()))],
        calls: Vec::new(),
    };
    let policy_calls = Arc::new(Mutex::new(Vec::new()));
    let policy = ScriptedPolicy {
        decisions: vec![ToolPolicyDecision::Allow],
        calls: policy_calls.clone(),
    };
    let mut run = AgentRun::new(AgentRunId::new(34), AgentBudget::new(2, 1));
    let result = AgentExecutor::with_policy(&mut provider, &mut tools, policy).execute(
        &mut run,
        request(),
        &mut EventLog::default(),
    );

    assert_eq!(result.unwrap().content, "done");
    assert_eq!(tools.calls, vec!["read_file"]);
    assert_eq!(
        policy_calls.lock().unwrap().as_slice(),
        &[(AgentRunId::new(34), "read_file".into())]
    );
}

#[test]
fn policy_deny_returns_controlled_result_without_execution_or_budget_failure() {
    let mut provider = FakeProvider {
        scripts: vec![
            Ok(vec![
                tool_call("deny-1", "read_file"),
                ProviderChatStreamEvent::Done,
            ]),
            Ok(vec![
                ProviderChatStreamEvent::ContentDelta("continued".into()),
                ProviderChatStreamEvent::Done,
            ]),
        ],
        calls: 0,
        requests: Vec::new(),
    };
    let mut tools = FakeTools {
        outcomes: vec![Ok(ToolOutcome::Success("must not run".into()))],
        calls: Vec::new(),
    };
    let policy_calls = Arc::new(Mutex::new(Vec::new()));
    let policy = ScriptedPolicy {
        decisions: vec![ToolPolicyDecision::Deny {
            reason: "read-only scope".into(),
        }],
        calls: policy_calls.clone(),
    };
    let mut run = AgentRun::new(AgentRunId::new(35), AgentBudget::new(2, 1));
    let result = AgentExecutor::with_policy(&mut provider, &mut tools, policy)
        .execute(&mut run, request(), &mut EventLog::default())
        .unwrap();

    assert_eq!(result.content, "continued");
    assert!(tools.calls.is_empty());
    assert_eq!(policy_calls.lock().unwrap().len(), 1);
    assert_eq!(run.usage().tool_calls, 1);
    assert!(result.messages().iter().any(|message| {
        matches!(message.role, ChatRole::Tool) && message.content.contains("denied by policy")
    }));
}

#[test]
fn require_approval_is_fail_safe_without_approval_flow() {
    let mut provider = FakeProvider {
        scripts: vec![
            Ok(vec![
                tool_call("approval-1", "fetch_url"),
                ProviderChatStreamEvent::Done,
            ]),
            Ok(vec![
                ProviderChatStreamEvent::ContentDelta("approval unavailable".into()),
                ProviderChatStreamEvent::Done,
            ]),
        ],
        calls: 0,
        requests: Vec::new(),
    };
    let mut tools = FakeTools {
        outcomes: vec![Ok(ToolOutcome::Success("must not run".into()))],
        calls: Vec::new(),
    };
    let policy_calls = Arc::new(Mutex::new(Vec::new()));
    let policy = ScriptedPolicy {
        decisions: vec![ToolPolicyDecision::RequireApproval {
            reason: "interactive approval unavailable".into(),
        }],
        calls: policy_calls.clone(),
    };
    let mut run = AgentRun::new(AgentRunId::new(36), AgentBudget::new(2, 1));
    let mut executor = AgentExecutor::with_policy(&mut provider, &mut tools, policy);
    let error = executor
        .execute(&mut run, request(), &mut EventLog::default())
        .unwrap_err();

    assert!(matches!(error, AgentExecutionError::ApprovalRequired(_)));
    assert_eq!(run.state(), AgentState::WaitingForApproval);
    assert!(tools.calls.is_empty());
    assert_eq!(policy_calls.lock().unwrap().len(), 1);
    assert_eq!(provider.calls, 1);
}

#[test]
fn approval_pause_emits_safe_request_and_approve_resumes_once() {
    let mut provider = FakeProvider {
        scripts: vec![
            Ok(vec![
                ProviderChatStreamEvent::ReasoningDelta("approval reasoning".into()),
                tool_call("approval-1", "fetch_url"),
                ProviderChatStreamEvent::Done,
            ]),
            Ok(vec![
                ProviderChatStreamEvent::ReasoningDelta("continuation reasoning".into()),
                tool_call("followup-1", "write_file"),
                ProviderChatStreamEvent::Done,
            ]),
            Ok(vec![
                ProviderChatStreamEvent::ContentDelta("approved".into()),
                ProviderChatStreamEvent::Done,
            ]),
        ],
        calls: 0,
        requests: Vec::new(),
    };
    let mut tools = FakeTools {
        outcomes: vec![
            Ok(ToolOutcome::Success("fetched".into())),
            Ok(ToolOutcome::Success("must not run".into())),
        ],
        calls: Vec::new(),
    };
    let policy = ScriptedPolicy {
        decisions: vec![
            ToolPolicyDecision::RequireApproval {
                reason: "network access".into(),
            },
            ToolPolicyDecision::Deny {
                reason: "write access".into(),
            },
        ],
        calls: Arc::new(Mutex::new(Vec::new())),
    };
    let mut run = AgentRun::new(AgentRunId::new(39), AgentBudget::new(3, 2));
    let mut log = EventLog::default();
    let mut executor = AgentExecutor::with_policy(&mut provider, &mut tools, policy);
    let error = executor
        .execute(&mut run, request(), &mut log)
        .unwrap_err();
    let approval = match error {
        AgentExecutionError::ApprovalRequired(request) => request,
        other => panic!("unexpected error: {other:?}"),
    };

    assert_eq!(run.state(), AgentState::WaitingForApproval);
    assert!(log.events.iter().any(|event| matches!(
        event,
        AgentEvent::ApprovalRequested {
            run_id,
            approval_id,
            tool_name,
            arguments,
            ..
        } if *run_id == run.id()
            && *approval_id == approval.approval_id
            && tool_name == "fetch_url"
            && arguments == "{}"
    )));

    let result = executor
        .approve(&mut run, approval.approval_id, &mut log)
        .unwrap();

    assert_eq!(result.content, "approved");
    assert!(matches!(
        executor.approve(&mut run, approval.approval_id, &mut EventLog::default()),
        Err(AgentExecutionError::Approval(ApprovalError::NotPending))
    ));
    assert_eq!(tools.calls, vec!["fetch_url"]);
    assert_eq!(provider.calls, 3);
    assert_eq!(
        provider.requests[1].messages[1].reasoning.as_deref(),
        Some("approval reasoning")
    );
    assert_eq!(
        provider.requests[1].messages[1].tool_calls[0].id.as_deref(),
        Some("approval-1")
    );
    assert_eq!(
        result.messages()[3].reasoning.as_deref(),
        Some("continuation reasoning")
    );
    assert_eq!(run.usage().provider_turns, 3);
    assert_eq!(run.usage().tool_calls, 2);
    assert_eq!(run.state(), AgentState::Completed);
    assert!(provider.requests[2].tools.is_none());
    assert!(
        provider.requests[2]
            .messages
            .iter()
            .all(|message| !matches!(message.role, ChatRole::Assistant | ChatRole::Tool))
    );
    assert!(
        provider.requests[2]
            .messages
            .iter()
            .all(|message| message.reasoning.is_none() && message.tool_calls.is_empty())
    );
    assert!(provider.requests[2].messages.iter().any(|message| {
        matches!(message.role, ChatRole::System)
            && message.content.contains("fetched")
            && message.content.contains("denied by policy")
    }));
    assert_eq!(
        log.events
            .iter()
            .filter(|event| matches!(event, AgentEvent::ApprovalRequested { .. }))
            .count(),
        1
    );
}

#[test]
fn approval_deny_never_executes_and_returns_controlled_result() {
    let mut provider = FakeProvider {
        scripts: vec![
            Ok(vec![
                ProviderChatStreamEvent::ReasoningDelta("deny reasoning".into()),
                tool_call("approval-1", "read_file"),
                ProviderChatStreamEvent::Done,
            ]),
            Ok(vec![
                ProviderChatStreamEvent::ReasoningDelta("continuation reasoning".into()),
                tool_call("followup-1", "write_file"),
                ProviderChatStreamEvent::Done,
            ]),
            Ok(vec![
                ProviderChatStreamEvent::ContentDelta("denied".into()),
                ProviderChatStreamEvent::Done,
            ]),
        ],
        calls: 0,
        requests: Vec::new(),
    };
    let mut tools = FakeTools {
        outcomes: vec![
            Ok(ToolOutcome::Success("must not run".into())),
            Ok(ToolOutcome::Success("must not run".into())),
        ],
        calls: Vec::new(),
    };
    let policy = ScriptedPolicy {
        decisions: vec![
            ToolPolicyDecision::RequireApproval {
                reason: "needs confirmation".into(),
            },
            ToolPolicyDecision::Deny {
                reason: "write access".into(),
            },
        ],
        calls: Arc::new(Mutex::new(Vec::new())),
    };
    let mut run = AgentRun::new(AgentRunId::new(40), AgentBudget::new(3, 2));
    let mut executor = AgentExecutor::with_policy(&mut provider, &mut tools, policy);
    let approval = match executor
        .execute(&mut run, request(), &mut EventLog::default())
        .unwrap_err()
    {
        AgentExecutionError::ApprovalRequired(request) => request,
        other => panic!("unexpected error: {other:?}"),
    };
    let result = executor
        .deny(&mut run, approval.approval_id, &mut EventLog::default())
        .unwrap();

    assert_eq!(result.content, "denied");
    assert!(tools.calls.is_empty());
    assert_eq!(provider.calls, 3);
    assert_eq!(run.usage().provider_turns, 3);
    assert_eq!(run.usage().tool_calls, 2);
    assert!(result.messages().iter().any(|message| {
        matches!(message.role, ChatRole::Tool)
            && message.content.contains("denied by approval decision")
    }));
    assert_eq!(
        provider.requests[1].messages[1].reasoning.as_deref(),
        Some("deny reasoning")
    );
    assert_eq!(
        result.messages()[3].reasoning.as_deref(),
        Some("continuation reasoning")
    );
    assert!(provider.requests[2].tools.is_none());
    assert!(
        provider.requests[2]
            .messages
            .iter()
            .all(|message| !matches!(message.role, ChatRole::Assistant | ChatRole::Tool))
    );
    assert!(
        provider.requests[2]
            .messages
            .iter()
            .all(|message| message.reasoning.is_none() && message.tool_calls.is_empty())
    );
    assert!(provider.requests[2].messages.iter().any(|message| {
        matches!(message.role, ChatRole::System)
            && message.content.contains("denied by approval decision")
            && message.content.contains("denied by policy")
    }));
}

#[test]
fn approval_identity_is_single_use_and_rejects_wrong_ids_and_runs() {
    let mut provider = FakeProvider {
        scripts: vec![
            Ok(vec![
                tool_call("approval-1", "read_file"),
                ProviderChatStreamEvent::Done,
            ]),
            Ok(vec![ProviderChatStreamEvent::Done]),
        ],
        calls: 0,
        requests: Vec::new(),
    };
    let mut tools = FakeTools {
        outcomes: vec![Ok(ToolOutcome::Success("read".into()))],
        calls: Vec::new(),
    };
    let policy = ScriptedPolicy {
        decisions: vec![ToolPolicyDecision::RequireApproval {
            reason: "confirm".into(),
        }],
        calls: Arc::new(Mutex::new(Vec::new())),
    };
    let mut run = AgentRun::new(AgentRunId::new(41), AgentBudget::new(2, 1));
    let mut other_run = AgentRun::new(AgentRunId::new(42), AgentBudget::new(2, 1));
    let mut executor = AgentExecutor::with_policy(&mut provider, &mut tools, policy);
    let approval = match executor
        .execute(&mut run, request(), &mut EventLog::default())
        .unwrap_err()
    {
        AgentExecutionError::ApprovalRequired(request) => request,
        other => panic!("unexpected error: {other:?}"),
    };

    assert!(matches!(
        executor.approve(&mut other_run, approval.approval_id, &mut EventLog::default()),
        Err(AgentExecutionError::Approval(ApprovalError::NotPending))
    ));
    assert!(matches!(
        executor.approve(&mut run, ApprovalId(999), &mut EventLog::default()),
        Err(AgentExecutionError::Approval(
            ApprovalError::UnknownApproval
        ))
    ));
    executor
        .deny(&mut run, approval.approval_id, &mut EventLog::default())
        .unwrap();
    assert!(matches!(
        executor.deny(&mut run, approval.approval_id, &mut EventLog::default()),
        Err(AgentExecutionError::Approval(ApprovalError::NotPending))
    ));
    assert!(matches!(
        executor.approve(&mut run, approval.approval_id, &mut EventLog::default()),
        Err(AgentExecutionError::Approval(ApprovalError::NotPending))
    ));
    assert!(tools.calls.is_empty());
}

#[test]
fn cancel_while_waiting_for_approval_prevents_later_execution() {
    let mut provider = FakeProvider {
        scripts: vec![Ok(vec![
            tool_call("approval-1", "read_file"),
            ProviderChatStreamEvent::Done,
        ])],
        calls: 0,
        requests: Vec::new(),
    };
    let mut tools = FakeTools {
        outcomes: vec![Ok(ToolOutcome::Success("must not run".into()))],
        calls: Vec::new(),
    };
    let policy = ScriptedPolicy {
        decisions: vec![ToolPolicyDecision::RequireApproval {
            reason: "confirm".into(),
        }],
        calls: Arc::new(Mutex::new(Vec::new())),
    };
    let mut run = AgentRun::new(AgentRunId::new(43), AgentBudget::new(2, 1));
    let mut executor = AgentExecutor::with_policy(&mut provider, &mut tools, policy);
    let approval = match executor
        .execute(&mut run, request(), &mut EventLog::default())
        .unwrap_err()
    {
        AgentExecutionError::ApprovalRequired(request) => request,
        other => panic!("unexpected error: {other:?}"),
    };
    assert!(run.cancel());
    assert!(matches!(
        executor.approve(&mut run, approval.approval_id, &mut EventLog::default()),
        Err(AgentExecutionError::Approval(ApprovalError::NotPending))
    ));
    assert!(tools.calls.is_empty());
    assert_eq!(run.state(), AgentState::Cancelled);
}

#[test]
fn multiple_tool_calls_pause_in_order_and_resume_without_repeating_provider() {
    let mut provider = FakeProvider {
        scripts: vec![
            Ok(vec![
                tool_call("allow-1", "read_file"),
                tool_call("approval-1", "fetch_url"),
                ProviderChatStreamEvent::Done,
            ]),
            Ok(vec![
                ProviderChatStreamEvent::ContentDelta("finished".into()),
                ProviderChatStreamEvent::Done,
            ]),
        ],
        calls: 0,
        requests: Vec::new(),
    };
    let mut tools = FakeTools {
        outcomes: vec![
            Ok(ToolOutcome::Success("read".into())),
            Ok(ToolOutcome::Success("fetch".into())),
        ],
        calls: Vec::new(),
    };
    let policy = ScriptedPolicy {
        decisions: vec![
            ToolPolicyDecision::Allow,
            ToolPolicyDecision::RequireApproval {
                reason: "network".into(),
            },
        ],
        calls: Arc::new(Mutex::new(Vec::new())),
    };
    let mut run = AgentRun::new(AgentRunId::new(44), AgentBudget::new(2, 2));
    let mut executor = AgentExecutor::with_policy(&mut provider, &mut tools, policy);
    let approval = match executor
        .execute(&mut run, request(), &mut EventLog::default())
        .unwrap_err()
    {
        AgentExecutionError::ApprovalRequired(request) => request,
        other => panic!("unexpected error: {other:?}"),
    };
    let result = executor
        .approve(&mut run, approval.approval_id, &mut EventLog::default())
        .unwrap();

    assert_eq!(result.content, "finished");
    assert_eq!(tools.calls, vec!["read_file", "fetch_url"]);
    assert_eq!(provider.calls, 2);
    assert_eq!(run.usage().tool_calls, 2);
}

#[test]
fn policy_is_applied_to_each_call_in_one_provider_turn() {
    let mut provider = FakeProvider {
        scripts: vec![
            Ok(vec![
                tool_call("unknown-1", "shell"),
                tool_call("unknown-2", "write_file"),
                ProviderChatStreamEvent::Done,
            ]),
            Ok(vec![
                ProviderChatStreamEvent::ContentDelta("safe".into()),
                ProviderChatStreamEvent::Done,
            ]),
        ],
        calls: 0,
        requests: Vec::new(),
    };
    let mut tools = FakeTools {
        outcomes: vec![
            Ok(ToolOutcome::Success("must not run".into())),
            Ok(ToolOutcome::Success("must not run".into())),
        ],
        calls: Vec::new(),
    };
    let policy_calls = Arc::new(Mutex::new(Vec::new()));
    let policy = ScriptedPolicy {
        decisions: vec![
            ToolPolicyDecision::Deny {
                reason: "unknown".into(),
            },
            ToolPolicyDecision::Deny {
                reason: "unknown".into(),
            },
        ],
        calls: policy_calls.clone(),
    };
    let mut run = AgentRun::new(AgentRunId::new(37), AgentBudget::new(2, 2));
    let result = AgentExecutor::with_policy(&mut provider, &mut tools, policy)
        .execute(&mut run, request(), &mut EventLog::default())
        .unwrap();

    assert_eq!(result.content, "safe");
    assert!(tools.calls.is_empty());
    assert_eq!(policy_calls.lock().unwrap().len(), 2);
    assert_eq!(run.usage().tool_calls, 2);
}

#[test]
fn default_policy_denies_unknown_tool_fail_closed() {
    let mut provider = FakeProvider {
        scripts: vec![
            Ok(vec![
                tool_call("unknown-1", "shell"),
                ProviderChatStreamEvent::Done,
            ]),
            Ok(vec![
                ProviderChatStreamEvent::ContentDelta("safe".into()),
                ProviderChatStreamEvent::Done,
            ]),
        ],
        calls: 0,
        requests: Vec::new(),
    };
    let mut tools = FakeTools {
        outcomes: vec![Ok(ToolOutcome::Success("must not run".into()))],
        calls: Vec::new(),
    };
    let mut run = AgentRun::new(AgentRunId::new(38), AgentBudget::new(2, 1));
    let result = AgentExecutor::new(&mut provider, &mut tools)
        .execute(&mut run, request(), &mut EventLog::default())
        .unwrap();

    assert_eq!(result.content, "safe");
    assert!(tools.calls.is_empty());
    assert!(result.messages().iter().any(|message| {
        matches!(message.role, ChatRole::Tool)
            && message.content.contains("tool 'shell' is not allowed")
    }));
}

#[test]
fn reserves_last_provider_turn_for_finalization() {
    let mut scripts = Vec::new();
    for index in 0..4 {
        scripts.push(Ok(vec![
            tool_call(&format!("call-{index}"), "read_file"),
            ProviderChatStreamEvent::Done,
        ]));
    }
    scripts.push(Ok(vec![
        ProviderChatStreamEvent::ContentDelta("final answer".into()),
        ProviderChatStreamEvent::Done,
    ]));
    let mut provider = FakeProvider {
        scripts,
        calls: 0,
        requests: Vec::new(),
    };
    let mut tools = FakeTools {
        outcomes: vec![
            Ok(ToolOutcome::Success("one".into())),
            Ok(ToolOutcome::Success("two".into())),
            Ok(ToolOutcome::Success("three".into())),
            Ok(ToolOutcome::Success("four".into())),
        ],
        calls: Vec::new(),
    };
    let mut run = AgentRun::new(AgentRunId::new(31), AgentBudget::new(5, 16));
    let mut request = request();
    request.tools = Some(vec![ProviderToolDefinition {
        name: "read_file".into(),
        description: "read a file".into(),
        parameters: object_schema(),
    }]);

    let result = AgentExecutor::new(&mut provider, &mut tools)
        .execute(&mut run, request, &mut EventLog::default())
        .unwrap();

    assert_eq!(result.content, "final answer");
    assert_eq!(provider.calls, 5);
    assert_eq!(run.usage().provider_turns, 5);
    assert_eq!(run.usage().tool_calls, 4);
    assert!(
        provider.requests[..4]
            .iter()
            .all(|request| request.tools.is_some())
    );
    assert!(provider.requests[4].tools.is_none());
    assert!(
        provider.requests[4]
            .messages
            .iter()
            .all(|message| !matches!(message.role, ChatRole::Assistant | ChatRole::Tool))
    );
    assert!(provider.requests[4].messages.iter().any(|message| {
        matches!(message.role, ChatRole::System)
            && message.content.contains("one")
            && message.content.contains("four")
    }));
    assert_eq!(
        provider.requests[4]
            .messages
            .last()
            .map(|message| &message.role),
        Some(&ChatRole::System)
    );
    assert_eq!(run.state(), AgentState::Completed);
}

#[test]
fn finalization_rejects_tool_call_without_executing_it() {
    let mut provider = FakeProvider {
        scripts: vec![Ok(vec![
            tool_call("call-1", "read_file"),
            ProviderChatStreamEvent::Done,
        ])],
        calls: 0,
        requests: Vec::new(),
    };
    let mut tools = FakeTools {
        outcomes: vec![Ok(ToolOutcome::Success("must not run".into()))],
        calls: Vec::new(),
    };
    let mut run = AgentRun::new(AgentRunId::new(32), AgentBudget::new(1, 16));
    let mut log = EventLog::default();
    let result = AgentExecutor::new(&mut provider, &mut tools).execute(
        &mut run,
        request(),
        &mut log,
    );

    assert!(matches!(
        result,
        Err(AgentExecutionError::ProviderProtocol(
            "provider emitted a tool call while tools were disabled"
        ))
    ));
    assert_eq!(provider.calls, 1);
    assert!(provider.requests[0].tools.is_none());
    assert!(tools.calls.is_empty());
    assert_eq!(run.usage().provider_turns, 1);
    assert!(log.events.iter().any(|event| matches!(
        event,
        AgentEvent::Failed {
            diagnostic: AgentFailureDiagnostic {
                kind: AgentFailureKind::Provider,
                ..
            },
            ..
        }
    )));
}

#[test]
fn finalization_rejects_textual_tool_protocol_without_emitting_content() {
    let mut provider = FakeProvider {
        scripts: vec![Ok(vec![
            ProviderChatStreamEvent::ContentDelta(
                "<tool_call>\n<function=>\n</function>\n</tool_call>".into(),
            ),
            ProviderChatStreamEvent::Done,
        ])],
        calls: 0,
        requests: Vec::new(),
    };
    let mut tools = FakeTools {
        outcomes: vec![Ok(ToolOutcome::Success("must not run".into()))],
        calls: Vec::new(),
    };
    let mut run = AgentRun::new(AgentRunId::new(33), AgentBudget::new(1, 16));
    let mut log = EventLog::default();
    let result = AgentExecutor::new(&mut provider, &mut tools).execute(
        &mut run,
        request(),
        &mut log,
    );

    assert!(matches!(
        result,
        Err(AgentExecutionError::ProviderProtocol(
            "provider emitted tool-call markup while tools were disabled"
        ))
    ));
    assert_eq!(provider.calls, 1);
    assert!(provider.requests[0].tools.is_none());
    assert!(tools.calls.is_empty());
    assert_eq!(run.usage().provider_turns, 1);
    assert!(!log.events.iter().any(|event| matches!(
        event,
        AgentEvent::ContentDelta { delta, .. } if delta.contains("<tool_call")
    )));
}

#[test]
fn provider_and_tool_budgets_are_checked_before_execution() {
    let mut provider = FakeProvider {
        scripts: vec![
            Ok(vec![
                tool_call("a", "read_file"),
                ProviderChatStreamEvent::Done,
            ]),
            Ok(vec![ProviderChatStreamEvent::Done]),
        ],
        calls: 0,
        requests: Vec::new(),
    };
    let mut tools = FakeTools {
        outcomes: vec![Ok(ToolOutcome::Success("A".into()))],
        calls: Vec::new(),
    };
    let mut run = AgentRun::new(AgentRunId::new(23), AgentBudget::new(2, 0));
    let mut log = EventLog::default();
    let result = AgentExecutor::new(&mut provider, &mut tools).execute(
        &mut run,
        request(),
        &mut log,
    );
    assert!(matches!(
        result,
        Err(AgentExecutionError::BudgetExceeded(_))
    ));
    assert_eq!(provider.calls, 1);
    assert!(tools.calls.is_empty());
    assert_eq!(run.state(), AgentState::Failed);
}

#[test]
fn controlled_tool_error_is_sent_back_to_provider() {
    let mut provider = FakeProvider {
        scripts: vec![
            Ok(vec![
                tool_call("a", "read_file"),
                ProviderChatStreamEvent::Done,
            ]),
            Ok(vec![
                ProviderChatStreamEvent::ContentDelta("recovered".into()),
                ProviderChatStreamEvent::Done,
            ]),
        ],
        calls: 0,
        requests: Vec::new(),
    };
    let mut tools = FakeTools {
        outcomes: vec![Ok(ToolOutcome::ControlledError("not found".into()))],
        calls: Vec::new(),
    };
    let mut run = AgentRun::new(AgentRunId::new(24), AgentBudget::new(2, 1));
    let result = AgentExecutor::new(&mut provider, &mut tools)
        .execute(&mut run, request(), &mut EventLog::default())
        .unwrap();
    assert_eq!(result.content, "recovered");
    assert!(provider.requests[1].messages.iter().any(|message| {
        matches!(message.role, ChatRole::System) && message.content.contains("not found")
    }));
}

#[test]
fn failed_event_preserves_diagnostic_and_stale_failed_is_rejected() {
    let first = AgentRunId::new(28);
    let second = AgentRunId::new(29);
    let diagnostic = AgentFailureDiagnostic {
        kind: AgentFailureKind::BudgetExceeded,
        message: "provider turns (limit=5, attempted=6)".into(),
    };
    let event = AgentEvent::Failed {
        run_id: first,
        diagnostic: diagnostic.clone(),
    };
    assert_eq!(event.run_id(), first);
    assert_eq!(
        event,
        AgentEvent::Failed {
            run_id: first,
            diagnostic,
        }
    );
    assert!(is_stale_event(&event, second));
    assert!(!is_stale_event(&event, first));
}

#[test]
fn cancellation_emits_cancelled_without_failed_event() {
    let mut provider = FakeProvider {
        scripts: Vec::new(),
        calls: 0,
        requests: Vec::new(),
    };
    let mut tools = FakeTools {
        outcomes: Vec::new(),
        calls: Vec::new(),
    };
    let mut run = AgentRun::new(AgentRunId::new(30), budget());
    run.cancellation().cancel();
    let mut log = EventLog::default();
    let result = AgentExecutor::new(&mut provider, &mut tools).execute(
        &mut run,
        request(),
        &mut log,
    );
    assert!(matches!(result, Err(AgentExecutionError::Cancelled)));
    assert!(
        log.events
            .iter()
            .any(|event| matches!(event, AgentEvent::Cancelled { .. }))
    );
    assert!(
        !log.events
            .iter()
            .any(|event| matches!(event, AgentEvent::Failed { .. }))
    );
}

#[test]
fn provider_failure_and_infrastructure_tool_failure_are_distinct() {
    let mut provider = FakeProvider {
        scripts: vec![Err(ProviderError::Timeout)],
        calls: 0,
        requests: Vec::new(),
    };
    let mut tools = FakeTools {
        outcomes: Vec::new(),
        calls: Vec::new(),
    };
    let mut run = AgentRun::new(AgentRunId::new(25), budget());
    let mut log = EventLog::default();
    assert!(matches!(
        AgentExecutor::new(&mut provider, &mut tools).execute(
            &mut run,
            request(),
            &mut log,
        ),
        Err(AgentExecutionError::Provider(ProviderError::Timeout))
    ));
    assert!(log.events.iter().any(|event| matches!(
        event,
        AgentEvent::Failed {
            run_id,
            diagnostic: AgentFailureDiagnostic {
                kind: AgentFailureKind::Provider,
                message,
            },
        } if *run_id == AgentRunId::new(25) && message == "Connection timed out"
    )));

    let mut provider = FakeProvider {
        scripts: vec![Ok(vec![
            tool_call("a", "read_file"),
            ProviderChatStreamEvent::Done,
        ])],
        calls: 0,
        requests: Vec::new(),
    };
    let mut tools = FakeTools {
        outcomes: vec![Err(ToolInfrastructureError {
            message: "broken executor".into(),
        })],
        calls: Vec::new(),
    };
    let mut run = AgentRun::new(AgentRunId::new(26), budget());
    assert!(matches!(
        AgentExecutor::new(&mut provider, &mut tools).execute(&mut run, request(), &mut EventLog::default()),
        Err(AgentExecutionError::Tool(_))
    ));
}

#[test]
fn cancellation_prevents_provider_and_tool_work() {
    let mut provider = FakeProvider {
        scripts: Vec::new(),
        calls: 0,
        requests: Vec::new(),
    };
    let mut tools = FakeTools {
        outcomes: Vec::new(),
        calls: Vec::new(),
    };
    let mut run = AgentRun::new(AgentRunId::new(27), budget());
    run.cancellation().cancel();
    let result = AgentExecutor::new(&mut provider, &mut tools)
        .execute(&mut run, request(), &mut EventLog::default())
        .unwrap_err();
    assert!(matches!(result, AgentExecutionError::Cancelled));
    assert_eq!(provider.calls, 0);
    assert!(tools.calls.is_empty());
    assert_eq!(run.state(), AgentState::Cancelled);
}

#[test]
fn cancellation_between_provider_and_tool_skips_tool() {
    let mut run = AgentRun::new(AgentRunId::new(28), budget());
    let cancellation = run.cancellation();
    let mut provider = CancellingProvider {
        cancellation: cancellation.clone(),
        calls: 0,
    };
    let mut tools = FakeTools {
        outcomes: vec![Ok(ToolOutcome::Success("should not run".into()))],
        calls: Vec::new(),
    };
    let result =
        AgentExecutor::new(&mut provider, &mut tools).execute(&mut run, request(), &mut EventLog::default());
    assert!(matches!(result, Err(AgentExecutionError::Cancelled)));
    assert!(tools.calls.is_empty());
}

#[test]
fn cancellation_between_tool_and_next_provider_stops_next_turn() {
    let mut run = AgentRun::new(AgentRunId::new(29), budget());
    let cancellation = run.cancellation();
    let mut provider = FakeProvider {
        scripts: vec![Ok(vec![
            tool_call("a", "read_file"),
            ProviderChatStreamEvent::Done,
        ])],
        calls: 0,
        requests: Vec::new(),
    };
    let mut tools = CancellingTool {
        cancellation: cancellation.clone(),
        calls: 0,
    };
    let result =
        AgentExecutor::new(&mut provider, &mut tools).execute(&mut run, request(), &mut EventLog::default());
    assert!(matches!(result, Err(AgentExecutionError::Cancelled)));
    assert_eq!(provider.calls, 1);
    assert_eq!(tools.calls, 1);
}

#[test]
fn errors_say_what_went_wrong() {
    let transition = InvalidTransition {
        from: AgentState::Idle,
        to: AgentState::Completed,
    };
    assert_eq!(
        transition.message(),
        "invalid agent transition: Idle -> Completed"
    );
    let budget = BudgetExceeded {
        resource: BudgetResource::ToolCalls,
        limit: 1,
        attempted: 2,
    };
    assert_eq!(budget.message(), "agent budget exceeded for ToolCalls");
    assert_eq!(
        ApprovalError::NotPending.message(),
        "agent is not awaiting approval"
    );
    assert_eq!(
        ApprovalError::UnknownApproval.message(),
        "unknown or stale approval"
    );
    for (error, message) in [
        (
            AgentExecutionError::Provider(ProviderError::Unavailable("a\"b".into())),
            "provider execution failed: Unavailable(\"a\\\"b\")",
        ),
        (
            AgentExecutionError::Tool(ToolInfrastructureError {
                message: "broken".into(),
            }),
            "tool execution failed: broken",
        ),
        (AgentExecutionError::ProviderProtocol("odd"), "odd"),
        (
            AgentExecutionError::BudgetExceeded(budget),
            "agent budget exceeded for ToolCalls",
        ),
        (AgentExecutionError::Cancelled, "agent run cancelled"),
        (
            AgentExecutionError::Transition(transition),
            "invalid agent transition: Idle -> Completed",
        ),
        (
            AgentExecutionError::Approval(ApprovalError::NotPending),
            "agent is not awaiting approval",
        ),
        (
            AgentExecutionError::ApprovalRequired(ApprovalRequest {
                run_id: AgentRunId::new(1),
                approval_id: ApprovalId(7),
                tool_name: "fetch_url".into(),
                arguments: "{}".into(),
                reason: "network".into(),
            }),
            "approval required for fetch_url (approval_id=7)",
        ),
    ] {
        assert_eq!(error.message(), message);
    }
}

#[test]
fn diagnostics_and_arguments_are_cut_short() {
    let long = "x".repeat(300);
    let cut = concise_diagnostic(&long);
    assert_eq!(cut.chars().count(), 241);
    assert!(cut.ends_with('…'));
    assert_eq!(concise_diagnostic("a\nb"), "a b");
    let arguments = bounded_arguments(&"é".repeat(5000));
    assert_eq!(arguments.chars().count(), 4097);
    assert_eq!(bounded_arguments("{}"), "{}");
}

#[test]
fn tool_protocol_markup_is_recognised_in_any_case() {
    assert!(contains_tool_protocol_markup("text <TOOL_CALL name=x>"));
    assert!(contains_tool_protocol_markup("</function>"));
    assert!(!contains_tool_protocol_markup("a tool call"));
}

#[test]
fn no_step_leads_out_of_a_final_state_or_back_to_the_first() {
    let states = [
        AgentState::Idle,
        AgentState::Preparing,
        AgentState::RunningModel,
        AgentState::WaitingForTool,
        AgentState::WaitingForApproval,
        AgentState::RunningTool,
        AgentState::Finalizing,
        AgentState::Completed,
        AgentState::Cancelled,
        AgentState::Failed,
    ];
    for last in [AgentState::Completed, AgentState::Failed] {
        let mut run = AgentRun::new(AgentRunId::new(1), budget());
        run.transition(AgentState::Preparing).unwrap();
        if last == AgentState::Completed {
            run.transition(AgentState::RunningModel).unwrap();
            run.transition(AgentState::Finalizing).unwrap();
        }
        run.transition(last).unwrap();
        for state in states {
            assert_eq!(
                run.transition(state),
                Err(InvalidTransition {
                    from: last,
                    to: state
                })
            );
        }
        assert_eq!(run.state(), last);
    }
    let mut run = AgentRun::new(AgentRunId::new(1), budget());
    run.transition(AgentState::Preparing).unwrap();
    assert!(run.transition(AgentState::Idle).is_err());
}

/// A watcher that asks the run to stop as soon as it is told of thinking.
struct Impatient {
    cancellation: Cancellation,
    seen: Vec<AgentEvent>,
}

impl EventSink for Impatient {
    fn emit(&mut self, event: AgentEvent) {
        if matches!(event, AgentEvent::ThinkingDelta { .. }) {
            self.cancellation.cancel();
        }
        self.seen.push(event);
    }
}

/// A provider that notes, between two pieces, whether the watcher has asked it to stop.
struct Watchful {
    cancellation: Cancellation,
    asked_between: Vec<bool>,
}

impl ProviderExecutor for Watchful {
    fn execute<S: EventSink>(
        &mut self,
        _: &ProviderChatRequest,
        stream: &mut TurnStream<'_, S>,
    ) -> Result<(), ProviderError> {
        self.asked_between.push(self.cancellation.is_cancelled());
        stream.take(ProviderChatStreamEvent::ThinkingDelta("hm".into()));
        self.asked_between.push(self.cancellation.is_cancelled());
        stream.take(ProviderChatStreamEvent::ContentDelta("late".into()));
        Ok(())
    }
}

#[test]
fn pieces_are_told_while_the_model_still_speaks() {
    let mut run = AgentRun::new(AgentRunId::new(90), budget());
    let mut provider = Watchful {
        cancellation: run.cancellation(),
        asked_between: Vec::new(),
    };
    let mut tools = FakeTools {
        outcomes: Vec::new(),
        calls: Vec::new(),
    };
    let mut sink = Impatient {
        cancellation: run.cancellation(),
        seen: Vec::new(),
    };
    let result = AgentExecutor::new(&mut provider, &mut tools).execute(&mut run, request(), &mut sink);
    assert!(matches!(result, Err(AgentExecutionError::Cancelled)));
    assert_eq!(provider.asked_between, vec![false, true]);
    assert_eq!(run.state(), AgentState::Cancelled);
    assert!(matches!(sink.seen.last(), Some(AgentEvent::Cancelled { .. })));
}

#[test]
fn every_handle_of_a_run_is_the_same() {
    let mut run = AgentRun::new(AgentRunId::new(91), budget());
    let before = run.cancellation();
    assert!(!before.is_cancelled());
    assert!(run.cancel());
    assert!(before.is_cancelled());
    assert!(run.cancellation().is_cancelled());
    assert!(!before.cancel());
    assert!(!run.cancel());
}

#[test]
fn a_step_to_cancelled_tells_the_handle() {
    let mut run = AgentRun::new(AgentRunId::new(92), budget());
    let handle = run.cancellation();
    run.transition(AgentState::Preparing).unwrap();
    assert!(!handle.is_cancelled());
    run.transition(AgentState::Cancelled).unwrap();
    assert!(handle.is_cancelled());
}

#[test]
fn a_refused_start_asks_nobody() {
    let mut run = AgentRun::new(AgentRunId::new(93), budget());
    run.transition(AgentState::Preparing).unwrap();
    let calls = Arc::new(Mutex::new(Vec::new()));
    let mut provider = FakeProvider {
        scripts: Vec::new(),
        calls: 0,
        requests: Vec::new(),
    };
    let mut tools = FakeTools {
        outcomes: Vec::new(),
        calls: Vec::new(),
    };
    let policy = ScriptedPolicy {
        decisions: Vec::new(),
        calls: calls.clone(),
    };
    let mut log = EventLog::default();
    let result = AgentExecutor::with_policy(&mut provider, &mut tools, policy).execute(
        &mut run,
        request(),
        &mut log,
    );
    assert!(matches!(result, Err(AgentExecutionError::Transition(_))));
    assert_eq!(provider.calls, 0);
    assert!(tools.calls.is_empty());
    assert!(calls.lock().unwrap().is_empty());
    assert!(!run.cancellation().is_cancelled());
    assert_eq!(log.events.len(), 1);
}
