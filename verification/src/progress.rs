//! What every run keeps to, whatever the model, the policy and the tools answer.

use vstd::prelude::*;

use crate::executor;
use crate::executor::AgentExecutionError;
use crate::executor::AgentExecutionResult;
use crate::executor::ContinuationView;
use crate::executor::DecisionView;
use crate::executor::ErrorView;
use crate::executor::Exchange;
use crate::executor::GivenView;
use crate::executor::ResultView;
use crate::executor::ToolPolicy;
use crate::executor::TurnProgress;
use crate::executor::TurnView;
use crate::provider::RequestView;
use crate::provider::StreamEventView;
use crate::provider::ToolCallView;
use crate::run;
use crate::run::AgentRunId;
use crate::run::AgentState;
use crate::run::ApprovalView;
use crate::run::BudgetResource;
use crate::run::EventKind;
use crate::run::EventView;
use crate::run::InvalidTransition;
use crate::run::RunView;
use crate::trace;
use crate::trace::Machine;
use crate::trace::Look;
use crate::trace::Past;
use crate::trace::Phase;
use crate::trace::Step;
use crate::trace::World;

verus! {

/// The content that a series of events tells.
pub open spec fn content_in(news: Seq<EventView>) -> Seq<char>
    decreases news.len(),
{
    if news.len() == 0 {
        Seq::empty()
    } else {
        content_in(news.drop_last()) + match news.last().kind {
            EventKind::ContentDelta(delta) => delta,
            _ => Seq::empty(),
        }
    }
}

/// The thinking that a series of events tells.
pub open spec fn thinking_in(news: Seq<EventView>) -> Seq<char>
    decreases news.len(),
{
    if news.len() == 0 {
        Seq::empty()
    } else {
        thinking_in(news.drop_last()) + match news.last().kind {
            EventKind::ThinkingDelta(delta) => delta,
            _ => Seq::empty(),
        }
    }
}

/// How many turns of the model a series of events tells of.
pub open spec fn turns_in(news: Seq<EventView>) -> nat
    decreases news.len(),
{
    if news.len() == 0 {
        0
    } else {
        turns_in(news.drop_last()) + if news.last().kind is ModelStarted {
            1nat
        } else {
            0
        }
    }
}

/// How many tool calls a series of events tells of.
pub open spec fn requests_in(news: Seq<EventView>) -> nat
    decreases news.len(),
{
    if news.len() == 0 {
        0
    } else {
        requests_in(news.drop_last()) + if news.last().kind is ToolRequested {
            1nat
        } else {
            0
        }
    }
}

/// Whether an event tells that a run is over.
pub open spec fn is_end(event: EventView) -> bool {
    event.kind is Completed || event.kind is Cancelled || event.kind is Failed
}

/// What every part of a run keeps, whatever the model, the tools and the policy do: the run keeps
/// its name and budget, never uses more than its budget, counts exactly the turns and the calls
/// that it tells of, and tells of nothing but itself.
pub open spec fn run_progress(before: RunView, after: RunView, news: Seq<EventView>) -> bool {
    &&& after.id == before.id
    &&& after.budget == before.budget
    &&& after.usage.provider_turns == before.usage.provider_turns + turns_in(news)
    &&& after.usage.tool_calls == before.usage.tool_calls + requests_in(news)
    &&& run::within_budget(before) ==> run::within_budget(after)
    &&& before.next_approval_id <= after.next_approval_id
    &&& all_of(news, before.id)
}

/// Whether all events belong to one run.
pub open spec fn all_of(news: Seq<EventView>, run_id: AgentRunId) -> bool {
    forall|k: int| 0 <= k < news.len() ==> (#[trigger] news[k]).run_id == run_id
}

/// What every part of a run keeps of the conversation: content and thinking grow by exactly what
/// is told of them, and messages are only added.
pub open spec fn talk_progress(
    before: ContinuationView,
    after: ContinuationView,
    news: Seq<EventView>,
) -> bool {
    &&& after.content == before.content + content_in(news)
    &&& after.thinking == before.thinking + thinking_in(news)
    &&& before.request.messages.is_prefix_of(after.request.messages)
    &&& after.request == (RequestView { messages: after.request.messages, ..before.request })
}

/// Whether no event tells that the run is over.
pub open spec fn no_end(news: Seq<EventView>) -> bool {
    forall|k: int| 0 <= k < news.len() ==> !is_end(#[trigger] news[k])
}

proof fn lemma_push(news: Seq<EventView>, event: EventView)
    ensures
        content_in(news.push(event)) == content_in(news) + (match event.kind {
            EventKind::ContentDelta(delta) => delta,
            _ => Seq::empty(),
        }),
        thinking_in(news.push(event)) == thinking_in(news) + (match event.kind {
            EventKind::ThinkingDelta(delta) => delta,
            _ => Seq::empty(),
        }),
        turns_in(news.push(event)) == turns_in(news) + if event.kind is ModelStarted {
            1nat
        } else {
            0
        },
        requests_in(news.push(event)) == requests_in(news) + if event.kind is ToolRequested {
            1nat
        } else {
            0
        },
        no_end(news) && !is_end(event) ==> no_end(news.push(event)),
        all_of(news, event.run_id) ==> all_of(news.push(event), event.run_id),
{
    assert(news.push(event).drop_last() =~= news);
}

/// What was told since a log ended.
pub open spec fn news(log: Seq<EventView>, log_after: Seq<EventView>) -> Seq<EventView> {
    log_after.skip(log.len() as int)
}

/// What is known of a run, a conversation and a log after some steps, whoever answered.
pub open spec fn advanced(
    run: RunView,
    talk: ContinuationView,
    log: Seq<EventView>,
    run_after: RunView,
    talk_after: ContinuationView,
    log_after: Seq<EventView>,
) -> bool {
    &&& log.is_prefix_of(log_after)
    &&& run_progress(run, run_after, news(log, log_after))
    &&& talk_progress(talk, talk_after, news(log, log_after))
    &&& no_end(news(log, log_after))
}

/// What is known of a run and a log when no answer came, whoever is to blame. Only the last event
/// tells that the run is over, and it tells why.
pub open spec fn stopped(
    run: RunView,
    log: Seq<EventView>,
    run_after: RunView,
    log_after: Seq<EventView>,
    error: ErrorView,
) -> bool {
    let said = news(log, log_after);
    &&& log.is_prefix_of(log_after)
    &&& run_progress(run, run_after, said)
    &&& match error {
        ErrorView::Provider(_) | ErrorView::ProviderProtocol(_) | ErrorView::Tool(_)
        | ErrorView::BudgetExceeded(_) => {
            &&& run_after.state is Failed
            &&& said.len() > 0
            &&& said.last().kind == EventKind::Failed(executor::diagnosis(error))
            &&& no_end(said.drop_last())
        },
        ErrorView::Cancelled => {
            &&& run::terminal(run_after.state)
            &&& no_end(said) || (run_after.state is Cancelled && said.len() > 0
                && said.last().kind is Cancelled && no_end(said.drop_last()))
        },
        ErrorView::ApprovalRequired(approval) => {
            &&& run_after.state is WaitingForApproval
            &&& run_after.pending is Some
            &&& (run_after.pending->0).0 == approval.approval_id
            &&& approval.run_id == run.id
            &&& said.len() > 0
            &&& said.last() == executor::approval_event(approval)
            &&& no_end(said)
        },
        ErrorView::Transition(refused) => {
            &&& run_after.state == refused.from
            &&& !run::legal(refused.from, refused.to)
            &&& no_end(said)
        },
        ErrorView::Approval(_) => false,
    }
}

proof fn lemma_advance_event(
    run: RunView,
    talk: ContinuationView,
    log: Seq<EventView>,
    run_mid: RunView,
    talk_mid: ContinuationView,
    log_mid: Seq<EventView>,
    event: EventView,
)
    requires
        advanced(run, talk, log, run_mid, talk_mid, log_mid),
        event.run_id == run.id,
    ensures
        log.is_prefix_of(log_mid.push(event)),
        news(log, log_mid.push(event)) == news(log, log_mid).push(event),
        all_of(news(log, log_mid.push(event)), run.id),
        !is_end(event) ==> no_end(news(log, log_mid.push(event))),
        turns_in(news(log, log_mid.push(event))) == turns_in(news(log, log_mid))
            + if event.kind is ModelStarted {
            1nat
        } else {
            0
        },
        requests_in(news(log, log_mid.push(event))) == requests_in(news(log, log_mid))
            + if event.kind is ToolRequested {
            1nat
        } else {
            0
        },
        content_in(news(log, log_mid.push(event))) == content_in(news(log, log_mid)) + (
        match event.kind {
            EventKind::ContentDelta(delta) => delta,
            _ => Seq::empty(),
        }),
        thinking_in(news(log, log_mid.push(event))) == thinking_in(news(log, log_mid)) + (
        match event.kind {
            EventKind::ThinkingDelta(delta) => delta,
            _ => Seq::empty(),
        }),
        news(log, log_mid.push(event)).drop_last() == news(log, log_mid),
        news(log, log_mid.push(event)).len() > 0,
        news(log, log_mid.push(event)).last() == event,
{
    assert(news(log, log_mid.push(event)) =~= news(log, log_mid).push(event));
    assert(news(log, log_mid.push(event)).drop_last() =~= news(log, log_mid));
    assert(log =~= log_mid.push(event).subrange(0, log.len() as int)) by {
        assert(log =~= log_mid.subrange(0, log.len() as int));
    }
    lemma_push(news(log, log_mid), event);
}

proof fn lemma_start(run: RunView, talk: ContinuationView, log: Seq<EventView>)
    ensures
        advanced(run, talk, log, run, talk, log),
{
    assert(news(log, log) =~= Seq::<EventView>::empty());
    assert(talk.content =~= talk.content + content_in(news(log, log)));
    assert(talk.thinking =~= talk.thinking + thinking_in(news(log, log)));
}

/// What an event counts as.
spec fn matches_event(
    run: RunView,
    talk: ContinuationView,
    run_after: RunView,
    talk_after: ContinuationView,
    event: EventView,
) -> bool {
    &&& event.run_id == run.id
    &&& !is_end(event)
    &&& same_but_state(run, run_after)
    &&& run_after.usage.provider_turns == run.usage.provider_turns + (
    if event.kind is ModelStarted {
        1nat
    } else {
        0
    })
    &&& run_after.usage.tool_calls == run.usage.tool_calls + (if event.kind is ToolRequested {
        1nat
    } else {
        0
    })
    &&& run::within_budget(run) ==> run::within_budget(run_after)
    &&& talk_after.content == talk.content + (match event.kind {
        EventKind::ContentDelta(delta) => delta,
        _ => Seq::empty(),
    })
    &&& talk_after.thinking == talk.thinking + (match event.kind {
        EventKind::ThinkingDelta(delta) => delta,
        _ => Seq::empty(),
    })
    &&& talk.request.messages.is_prefix_of(talk_after.request.messages)
    &&& talk_after.request == (RequestView {
        messages: talk_after.request.messages,
        ..talk.request
    })
}

spec fn same_but_state(run: RunView, run_after: RunView) -> bool {
    &&& run_after.id == run.id
    &&& run_after.budget == run.budget
    &&& run.next_approval_id <= run_after.next_approval_id
}

/// `advanced`, kept closed while a loop goes on.
#[verifier::opaque]
spec fn so_far(
    run: RunView,
    talk: ContinuationView,
    log: Seq<EventView>,
    run_after: RunView,
    talk_after: ContinuationView,
    log_after: Seq<EventView>,
) -> bool {
    advanced(run, talk, log, run_after, talk_after, log_after)
}

proof fn lemma_so_far_start(run: RunView, talk: ContinuationView, log: Seq<EventView>)
    ensures
        so_far(run, talk, log, run, talk, log),
{
    reveal(so_far);
    lemma_start(run, talk, log);
}

proof fn lemma_so_far_event(
    run: RunView,
    talk: ContinuationView,
    log: Seq<EventView>,
    run_mid: RunView,
    talk_mid: ContinuationView,
    log_mid: Seq<EventView>,
    run_after: RunView,
    talk_after: ContinuationView,
    event: EventView,
)
    requires
        so_far(run, talk, log, run_mid, talk_mid, log_mid),
        matches_event(run_mid, talk_mid, run_after, talk_after, event),
    ensures
        so_far(run, talk, log, run_after, talk_after, log_mid.push(event)),
{
    reveal(so_far);
    lemma_advance_event(run, talk, log, run_mid, talk_mid, log_mid, event);
    let said = news(log, log_mid);
    let said_after = news(log, log_mid.push(event));
    assert(talk_after.content =~= talk.content + content_in(said_after));
    assert(talk_after.thinking =~= talk.thinking + thinking_in(said_after));
    assert(talk.request.messages.is_prefix_of(talk_after.request.messages));
}

proof fn lemma_so_far_quiet(
    run: RunView,
    talk: ContinuationView,
    log: Seq<EventView>,
    run_mid: RunView,
    talk_mid: ContinuationView,
    log_mid: Seq<EventView>,
    run_after: RunView,
    talk_after: ContinuationView,
)
    requires
        so_far(run, talk, log, run_mid, talk_mid, log_mid),
        same_but_state(run_mid, run_after),
        run_after.usage == run_mid.usage,
        talk_after.content == talk_mid.content,
        talk_after.thinking == talk_mid.thinking,
        talk_mid.request.messages.is_prefix_of(talk_after.request.messages),
        talk_after.request == (RequestView {
            messages: talk_after.request.messages,
            ..talk_mid.request
        }),
    ensures
        so_far(run, talk, log, run_after, talk_after, log_mid),
{
    reveal(so_far);
}

proof fn lemma_so_far_failed(
    run: RunView,
    talk: ContinuationView,
    log: Seq<EventView>,
    run_mid: RunView,
    talk_mid: ContinuationView,
    log_mid: Seq<EventView>,
    run_after: RunView,
    log_after: Seq<EventView>,
    error: ErrorView,
    result: ErrorView,
)
    requires
        so_far(run, talk, log, run_mid, talk_mid, log_mid),
        executor::failure(run_mid, log_mid, error, run_after, log_after, result),
        error is Provider || error is ProviderProtocol || error is Tool || error is BudgetExceeded,
    ensures
        stopped(run, log, run_after, log_after, result),
        !(result is ApprovalRequired),
{
    reveal(so_far);
    lemma_advance_event(
        run,
        talk,
        log,
        run_mid,
        talk_mid,
        log_mid,
        EventView { run_id: run.id, kind: EventKind::Failed(executor::diagnosis(error)) },
    );
}

proof fn lemma_so_far_cancelled(
    run: RunView,
    talk: ContinuationView,
    log: Seq<EventView>,
    run_mid: RunView,
    talk_mid: ContinuationView,
    log_mid: Seq<EventView>,
    run_after: RunView,
    log_after: Seq<EventView>,
)
    requires
        so_far(run, talk, log, run_mid, talk_mid, log_mid),
        run::terminal(run_mid.state) ==> run_after == run_mid && log_after == log_mid,
        !run::terminal(run_mid.state) ==> {
            &&& run_after == (RunView { state: AgentState::Cancelled, pending: None, ..run_mid })
            &&& log_after == log_mid.push(
                EventView { run_id: run_mid.id, kind: EventKind::Cancelled },
            )
        },
    ensures
        stopped(run, log, run_after, log_after, ErrorView::Cancelled),
{
    reveal(so_far);
    lemma_advance_event(
        run,
        talk,
        log,
        run_mid,
        talk_mid,
        log_mid,
        EventView { run_id: run.id, kind: EventKind::Cancelled },
    );
}

proof fn lemma_so_far_refused(
    run: RunView,
    talk: ContinuationView,
    log: Seq<EventView>,
    run_mid: RunView,
    talk_mid: ContinuationView,
    log_mid: Seq<EventView>,
    run_after: RunView,
    error: InvalidTransition,
)
    requires
        so_far(run, talk, log, run_mid, talk_mid, log_mid),
        same_but_state(run_mid, run_after),
        run_after.usage == run_mid.usage,
        run_after.state == error.from,
        !run::legal(error.from, error.to),
    ensures
        stopped(run, log, run_after, log_mid, ErrorView::Transition(error)),
{
    reveal(so_far);
}

proof fn lemma_so_far_waiting(
    run: RunView,
    talk: ContinuationView,
    log: Seq<EventView>,
    run_mid: RunView,
    talk_mid: ContinuationView,
    log_mid: Seq<EventView>,
    run_after: RunView,
    talk_after: ContinuationView,
    approval: ApprovalView,
)
    requires
        so_far(run, talk, log, run_mid, talk_mid, log_mid),
        same_but_state(run_mid, run_after),
        run_after.usage == run_mid.usage,
        run_after.state is WaitingForApproval,
        run_after.pending is Some,
        (run_after.pending->0).0 == approval.approval_id,
        approval.run_id == run_mid.id,
        talk_after.content == talk_mid.content,
        talk_after.thinking == talk_mid.thinking,
        talk_after.request == talk_mid.request,
    ensures
        stopped(
            run,
            log,
            run_after,
            log_mid.push(executor::approval_event(approval)),
            ErrorView::ApprovalRequired(approval),
        ),
        advanced(run, talk, log, run_after, talk_after, log_mid.push(executor::approval_event(approval))),
{
    reveal(so_far);
    lemma_advance_event(run, talk, log, run_mid, talk_mid, log_mid, executor::approval_event(approval));
    let said_after = news(log, log_mid.push(executor::approval_event(approval)));
    assert(talk_after.content =~= talk.content + content_in(said_after));
    assert(talk_after.thinking =~= talk.thinking + thinking_in(said_after));
}

proof fn lemma_so_far_stream(
    run: RunView,
    talk: ContinuationView,
    log: Seq<EventView>,
    run_mid: RunView,
    start: TurnProgress,
    log_mid: Seq<EventView>,
    events: Seq<StreamEventView>,
)
    requires
        so_far(run, talk, log, run_mid, start.continuation, log_mid),
        run_mid.id == run.id,
        start.told.len() == 0,
    ensures
        so_far(
            run,
            talk,
            log,
            run_mid,
            executor::accept_all(start, events).continuation,
            log_mid + executor::tell(run.id, executor::accept_all(start, events).told),
        ),
        executor::accept_all(start, events).turn.finalization == start.turn.finalization,
        executor::accept_all(start, events).continuation.calls == start.continuation.calls,
    decreases events.len(),
{
    if events.len() == 0 {
        assert(log_mid + executor::tell(run.id, start.told) =~= log_mid);
    } else {
        let rest = events.drop_last();
        lemma_so_far_stream(run, talk, log, run_mid, start, log_mid, rest);
        let mid = executor::accept_all(start, rest);
        let after = executor::accept(mid, events.last());
        let log_then = log_mid + executor::tell(run.id, mid.told);
        let told = match events.last() {
            StreamEventView::ThinkingDelta(delta) => Some(EventKind::ThinkingDelta(delta)),
            StreamEventView::ContentDelta(delta) => if mid.turn.finalization {
                None
            } else {
                Some(EventKind::ContentDelta(delta))
            },
            _ => None,
        };
        match told {
            Some(kind) => {
                let event = EventView { run_id: run.id, kind };
                assert(mid.continuation.content + Seq::<char>::empty()
                    =~= mid.continuation.content);
                assert(mid.continuation.thinking + Seq::<char>::empty()
                    =~= mid.continuation.thinking);
                lemma_so_far_event(
                    run,
                    talk,
                    log,
                    run_mid,
                    mid.continuation,
                    log_then,
                    run_mid,
                    after.continuation,
                    event,
                );
                assert(log_mid + executor::tell(run.id, after.told) =~= log_then.push(event));
            },
            None => {
                assert(after.continuation == mid.continuation);
                assert(after.told == mid.told);
            },
        }
    }
}

/// What is known of a run, a conversation and a log when the answer is there, whoever answered. The
/// run is completed, its watchers were told so last, and content and thinking are all that was told
/// of them.
pub open spec fn answered(
    run: RunView,
    talk: ContinuationView,
    log: Seq<EventView>,
    run_after: RunView,
    log_after: Seq<EventView>,
    answer: ResultView,
) -> bool {
    let said = news(log, log_after);
    &&& log.is_prefix_of(log_after)
    &&& run_progress(run, run_after, said)
    &&& run_after.state is Completed
    &&& said.len() >= 2
    &&& said.last().kind is Completed
    &&& said[said.len() - 2].kind is Finalizing
    &&& no_end(said.drop_last())
    &&& answer.content == talk.content + content_in(said)
    &&& answer.thinking == talk.thinking + thinking_in(said)
    &&& talk.request.messages.is_prefix_of(answer.messages)
}

/// What a run under way keeps to, whatever the model, the policy and the tools answer. A call that
/// waits for the user stands first in the conversation that waits with it.
pub open spec fn kept(from: Machine, m: Machine) -> bool {
    let so_far = advanced(from.run, from.talk, from.log, m.run, m.talk, m.log);
    &&& m.run.id == from.run.id
    &&& match m.phase {
        Phase::Next => so_far && (m.talk.calls.len() == 0 ==> m.run.state is RunningModel),
        Phase::Ask(_, _) | Phase::Heard(_) | Phase::Answered => so_far
            && m.run.state is RunningModel,
        Phase::Finalizing => so_far && m.run.state is Finalizing && m.log.len() > from.log.len()
            && m.log.last().kind is Finalizing,
        Phase::Calls => so_far && m.talk.calls.len() > 0,
        Phase::Decide(_) | Phase::Run(_) => so_far,
        Phase::Over(Ok(answer)) => answered(
            from.run,
            from.talk,
            from.log,
            m.run,
            m.log,
            answer,
        ),
        Phase::Over(Err(error)) => {
            &&& stopped(from.run, from.log, m.run, m.log, error)
            &&& error is ApprovalRequired ==> {
                &&& so_far
                &&& m.talk.calls.len() > 0
                &&& m.talk.calls[0] == (m.run.pending->0).1
            }
        },
        Phase::Astray => true,
    }
}

proof fn lemma_so_far_settled(
    run: RunView,
    talk: ContinuationView,
    log: Seq<EventView>,
    run_mid: RunView,
    talk_mid: ContinuationView,
    log_mid: Seq<EventView>,
    run_after: RunView,
    turn: TurnView,
)
    requires
        so_far(run, talk, log, run_mid, talk_mid, log_mid),
        run_mid.id == run.id,
        same_but_state(run_mid, run_after),
        run_after.usage == run_mid.usage,
    ensures
        so_far(
            run,
            talk,
            log,
            run_after,
            executor::settled(talk_mid, turn),
            log_mid + executor::tell(run.id, executor::settled_events(turn)),
        ),
{
    let told = executor::settled_events(turn);
    let after = executor::settled(talk_mid, turn);
    if told.len() > 0 {
        let event = EventView {
            run_id: run.id,
            kind: EventKind::ContentDelta(turn.final_content),
        };
        assert(log_mid + executor::tell(run.id, told) =~= log_mid.push(event));
        assert(talk_mid.thinking + Seq::<char>::empty() =~= talk_mid.thinking);
        lemma_so_far_event(
            run,
            talk,
            log,
            run_mid,
            talk_mid,
            log_mid,
            run_after,
            after,
            event,
        );
    } else {
        assert(log_mid + executor::tell(run.id, told) =~= log_mid);
        assert(after.content =~= talk_mid.content);
        lemma_so_far_quiet(run, talk, log, run_mid, talk_mid, log_mid, run_after, after);
    }
}

proof fn lemma_so_far_completed(
    run: RunView,
    talk: ContinuationView,
    log: Seq<EventView>,
    run_mid: RunView,
    talk_mid: ContinuationView,
    log_before: Seq<EventView>,
)
    requires
        so_far(
            run,
            talk,
            log,
            run_mid,
            talk_mid,
            log_before.push(EventView { run_id: run.id, kind: EventKind::Finalizing }),
        ),
        log.is_prefix_of(log_before),
    ensures
        ({
            let finalizing = log_before.push(
                EventView { run_id: run.id, kind: EventKind::Finalizing },
            );
            let said = news(
                log,
                finalizing.push(EventView { run_id: run.id, kind: EventKind::Completed }),
            );
            let after = RunView { state: AgentState::Completed, ..run_mid };
            &&& log.is_prefix_of(
                finalizing.push(EventView { run_id: run.id, kind: EventKind::Completed }),
            )
            &&& run_progress(run, after, said)
            &&& said.len() >= 2
            &&& said.last().kind is Completed
            &&& said[said.len() - 2].kind is Finalizing
            &&& no_end(said.drop_last())
            &&& talk_mid.content == talk.content + content_in(said)
            &&& talk_mid.thinking == talk.thinking + thinking_in(said)
            &&& talk.request.messages.is_prefix_of(talk_mid.request.messages)
        }),
{
    reveal(so_far);
    let finalizing = log_before.push(EventView { run_id: run.id, kind: EventKind::Finalizing });
    let event = EventView { run_id: run.id, kind: EventKind::Completed };
    lemma_advance_event(run, talk, log, run_mid, talk_mid, finalizing, event);
    let said = news(log, finalizing.push(event));
    assert(talk_mid.content =~= talk.content + content_in(said));
    assert(talk_mid.thinking =~= talk.thinking + thinking_in(said));
}

spec fn going(f: Machine, m: Machine) -> bool {
    &&& so_far(f.run, f.talk, f.log, m.run, m.talk, m.log)
    &&& m.run.id == f.run.id
}

proof fn lemma_going(f: Machine, m: Machine)
    ensures
        going(f, m) <==> advanced(f.run, f.talk, f.log, m.run, m.talk, m.log) && m.run.id
            == f.run.id,
{
    reveal(so_far);
}

proof fn lemma_kept_stops(f: Machine, m: Machine)
    requires
        going(f, m),
    ensures
        kept(f, trace::stops(m)),
{
    let after = trace::stops(m);
    lemma_so_far_cancelled(f.run, f.talk, f.log, m.run, m.talk, m.log, after.run, after.log);
}

proof fn lemma_kept_refused(f: Machine, m: Machine, to: AgentState)
    requires
        going(f, m),
        !run::legal(m.run.state, to),
    ensures
        kept(f, trace::refused(m, to)),
{
    lemma_so_far_refused(
        f.run,
        f.talk,
        f.log,
        m.run,
        m.talk,
        m.log,
        m.run,
        InvalidTransition { from: m.run.state, to },
    );
}

proof fn lemma_kept_fails(f: Machine, m: Machine, error: ErrorView)
    requires
        going(f, m),
        error is Provider || error is ProviderProtocol || error is Tool || error is BudgetExceeded,
    ensures
        kept(f, trace::fails(m, error)),
{
    let after = trace::fails(m, error);
    lemma_so_far_failed(
        f.run,
        f.talk,
        f.log,
        m.run,
        m.talk,
        m.log,
        after.run,
        after.log,
        error,
        after.phase->Over_0->Err_0,
    );
}

proof fn lemma_going_event(f: Machine, m: Machine, after: Machine, kind: EventKind)
    requires
        going(f, m),
        after.log == m.log.push(EventView { run_id: m.run.id, kind }),
        matches_event(
            m.run,
            m.talk,
            after.run,
            after.talk,
            EventView { run_id: m.run.id, kind },
        ),
    ensures
        going(f, after),
{
    lemma_so_far_event(
        f.run,
        f.talk,
        f.log,
        m.run,
        m.talk,
        m.log,
        after.run,
        after.talk,
        EventView { run_id: m.run.id, kind },
    );
}

/// Whether a conversation holds what another does, and no more content and thinking.
spec fn same_words(talk: ContinuationView, after: ContinuationView) -> bool {
    &&& after.content == talk.content
    &&& after.thinking == talk.thinking
    &&& talk.request.messages.is_prefix_of(after.request.messages)
    &&& after.request == (RequestView { messages: after.request.messages, ..talk.request })
}

proof fn lemma_no_words(talk: ContinuationView)
    ensures
        talk.content + Seq::<char>::empty() == talk.content,
        talk.thinking + Seq::<char>::empty() == talk.thinking,
{
    assert(talk.content + Seq::<char>::empty() =~= talk.content);
    assert(talk.thinking + Seq::<char>::empty() =~= talk.thinking);
}

proof fn lemma_going_quiet(f: Machine, m: Machine, after: Machine)
    requires
        going(f, m),
        after.log == m.log,
        same_but_state(m.run, after.run),
        after.run.usage == m.run.usage,
        same_words(m.talk, after.talk),
    ensures
        going(f, after),
{
    lemma_so_far_quiet(
        f.run,
        f.talk,
        f.log,
        m.run,
        m.talk,
        m.log,
        after.run,
        after.talk,
    );
}

proof fn lemma_kept_begins(f: Machine, m: Machine)
    requires
        going(f, m),
        m.run.state is RunningModel,
    ensures
        kept(f, trace::begins(m)),
{
    let after = trace::begins(m);
    if m.run.usage.provider_turns < m.run.budget.max_provider_turns {
        lemma_no_words(m.talk);
        lemma_going_event(f, m, after, EventKind::ModelStarted);
        lemma_going(f, after);
    } else {
        let quiet = Machine { approved: false, ..m };
        lemma_going_quiet(f, m, quiet);
        lemma_kept_fails(
            f,
            quiet,
            ErrorView::BudgetExceeded(
                run::exceeded(
                    BudgetResource::ProviderTurns,
                    m.run.usage.provider_turns,
                    m.run.budget.max_provider_turns,
                ),
            ),
        );
    }
}

proof fn lemma_kept_hears(f: Machine, m: Machine, final_turn: bool, turn: Exchange)
    requires
        going(f, m),
        m.run.state is RunningModel,
    ensures
        kept(f, trace::hears(m, final_turn, turn)),
{
    let start = TurnProgress {
        continuation: m.talk,
        turn: executor::silent(final_turn),
        told: Seq::empty(),
    };
    lemma_so_far_stream(f.run, f.talk, f.log, m.run, start, m.log, turn.said);
    let heard = executor::accept_all(start, turn.said);
    let after = Machine {
        talk: heard.continuation,
        log: m.log + executor::tell(m.run.id, heard.told),
        ..m
    };
    assert(going(f, after));
    match turn.error {
        Some(error) => {
            lemma_kept_fails(f, after, ErrorView::Provider(error));
        },
        None => {
            lemma_going(f, after);
        },
    }
}

proof fn lemma_kept_settles(f: Machine, m: Machine, turn: TurnView)
    requires
        going(f, m),
        m.run.state is RunningModel,
    ensures
        kept(f, trace::settles(m, turn)),
{
    match executor::protocol_error(turn) {
        Some(message) => {
            lemma_kept_fails(f, m, ErrorView::ProviderProtocol(message));
        },
        None => {
            let after = trace::settles(m, turn);
            lemma_so_far_settled(f.run, f.talk, f.log, m.run, m.talk, m.log, after.run, turn);
            lemma_going(f, after);
        },
    }
}

proof fn lemma_kept_finalizes(f: Machine, m: Machine)
    requires
        going(f, m),
    ensures
        kept(f, trace::finalizes(m)),
{
    if run::legal(m.run.state, AgentState::Finalizing) {
        let after = trace::finalizes(m);
        lemma_no_words(m.talk);
        lemma_going_event(f, m, after, EventKind::Finalizing);
        lemma_going(f, after);
        lemma_going(f, m);
    } else {
        lemma_kept_refused(f, m, AgentState::Finalizing);
    }
}

proof fn lemma_kept_completes(f: Machine, m: Machine)
    requires
        kept(f, m),
        m.phase is Finalizing,
    ensures
        kept(f, trace::completes(m)),
{
    lemma_going(f, m);
    let before = m.log.drop_last();
    assert(m.log =~= before.push(m.log.last()));
    assert(f.log.is_prefix_of(before)) by {
        assert(f.log =~= m.log.subrange(0, f.log.len() as int));
        assert(f.log =~= before.subrange(0, f.log.len() as int));
    }
    assert(m.log.last() == news(f.log, m.log).last());
    assert(m.log.last() == (EventView { run_id: f.run.id, kind: EventKind::Finalizing }));
    lemma_so_far_completed(f.run, f.talk, f.log, m.run, m.talk, before);
}

proof fn lemma_kept_starts(f: Machine, m: Machine, call: ToolCallView)
    requires
        going(f, m),
    ensures
        kept(f, trace::starts(m, call)),
{
    if m.talk.tool_running || run::legal(m.run.state, AgentState::RunningTool) {
        let after = trace::starts(m, call);
        lemma_no_words(m.talk);
        lemma_going_event(f, m, after, EventKind::ToolStarted);
        lemma_going(f, after);
    } else {
        lemma_kept_refused(f, m, AgentState::RunningTool);
    }
}

proof fn lemma_kept_takes_call(f: Machine, m: Machine)
    requires
        going(f, m),
        m.talk.calls.len() > 0,
    ensures
        kept(f, trace::takes_call(m)),
{
    let call = m.talk.calls[0];
    let taken = Machine {
        talk: ContinuationView { calls: m.talk.calls.skip(1), ..m.talk },
        approved: false,
        ..m
    };
    lemma_going_quiet(f, m, taken);
    if m.approved {
        lemma_kept_starts(f, taken, call);
    } else if m.run.usage.tool_calls < m.run.budget.max_tool_calls {
        let after = trace::takes_call(m);
        lemma_no_words(taken.talk);
        lemma_going_event(f, taken, after, EventKind::ToolRequested);
        lemma_going(f, after);
    } else {
        lemma_kept_fails(
            f,
            taken,
            ErrorView::BudgetExceeded(
                run::exceeded(
                    BudgetResource::ToolCalls,
                    m.run.usage.tool_calls,
                    m.run.budget.max_tool_calls,
                ),
            ),
        );
    }
}

proof fn lemma_kept_records(
    f: Machine,
    m: Machine,
    call: ToolCallView,
    succeeded: bool,
    content: Seq<char>,
)
    requires
        going(f, m),
    ensures
        kept(f, trace::records(m, call, succeeded, content)),
{
    let told = trace::telling(
        Machine {
            talk: executor::with_message(m.talk, executor::tool_message_view(call.id, content)),
            ..m
        },
        EventKind::ToolCompleted(succeeded),
    );
    lemma_no_words(m.talk);
    lemma_going_event(f, m, told, EventKind::ToolCompleted(succeeded));
    if told.talk.calls.len() == 0 && !run::legal(m.run.state, AgentState::RunningModel) {
        lemma_kept_refused(f, told, AgentState::RunningModel);
    } else {
        let after = trace::records(m, call, succeeded, content);
        lemma_going_quiet(f, told, after);
        lemma_going(f, after);
    }
}

proof fn lemma_kept_waits(f: Machine, m: Machine, call: ToolCallView, reason: Seq<char>)
    requires
        going(f, m),
    ensures
        kept(f, trace::waits(m, call, reason)),
{
    let after = trace::waits(m, call, reason);
    if run::legal(m.run.state, AgentState::WaitingForApproval) {
        let approval = after.phase->Over_0->Err_0->ApprovalRequired_0;
        lemma_so_far_waiting(
            f.run,
            f.talk,
            f.log,
            m.run,
            m.talk,
            m.log,
            after.run,
            after.talk,
            approval,
        );
    } else {
        lemma_so_far_refused(
            f.run,
            f.talk,
            f.log,
            m.run,
            m.talk,
            m.log,
            after.run,
            InvalidTransition { from: m.run.state, to: AgentState::WaitingForApproval },
        );
    }
}

proof fn lemma_kept_step(f: Machine, m: Machine, s: Step)
    requires
        kept(f, m),
    ensures
        kept(f, trace::step(m, s)),
{
    reveal(trace::step);
    lemma_going(f, m);
    match (m.phase, s) {
        (Phase::Next, Step::Looked(asked)) => {
            if asked {
                lemma_kept_stops(f, m);
            } else if m.talk.calls.len() > 0 {
            } else {
                lemma_kept_begins(f, m);
            }
        },
        (Phase::Ask(request, final_turn), Step::Asked(turn)) => {
            if turn.request == request {
                lemma_kept_hears(f, m, final_turn, turn);
            }
        },
        (Phase::Heard(turn), Step::Looked(asked)) => {
            if asked {
                lemma_kept_stops(f, m);
            } else {
                lemma_kept_settles(f, m, turn);
            }
        },
        (Phase::Answered, Step::Looked(asked)) => {
            if asked {
                lemma_kept_stops(f, m);
            } else {
                lemma_kept_finalizes(f, m);
            }
        },
        (Phase::Finalizing, Step::Looked(asked)) => {
            if asked {
                lemma_kept_stops(f, m);
            } else {
                lemma_kept_completes(f, m);
            }
        },
        (Phase::Calls, Step::Looked(asked)) => {
            if asked {
                lemma_kept_stops(f, m);
            } else {
                lemma_kept_takes_call(f, m);
            }
        },
        (Phase::Decide(call), Step::Decided(named, decision)) => {
            if named == call {
                match decision {
                    DecisionView::Allow => {
                        lemma_kept_starts(f, m, call);
                    },
                    DecisionView::Deny(reason) => {
                        lemma_kept_records(f, m, call, false, executor::denial_text(reason));
                    },
                    DecisionView::RequireApproval(reason) => {
                        lemma_kept_waits(f, m, call, reason);
                    },
                }
            }
        },
        (Phase::Run(call), Step::Ran(named, given)) => {
            if named == call {
                match given {
                    GivenView::Told { succeeded, content } => {
                        lemma_kept_records(f, m, call, succeeded, content);
                    },
                    GivenView::Broken(message) => {
                        lemma_kept_fails(f, m, ErrorView::Tool(message));
                    },
                }
            }
        },
        _ => {},
    }
}

proof fn lemma_kept_after(from: World, steps: Seq<Step>)
    requires
        may_go_on(from.machine),
    ensures
        kept(from.machine, trace::after(from, steps).machine),
    decreases steps.len(),
{
    let f = from.machine;
    if steps.len() == 0 {
        lemma_so_far_start(f.run, f.talk, f.log);
        lemma_going(f, f);
    } else {
        lemma_kept_after(from, steps.drop_last());
        lemma_kept_step(f, trace::after(from, steps.drop_last()).machine, steps.last());
    }
}

/// Whether a run can go on with a conversation: with a turn of the model only where the model is to
/// run.
pub open spec fn may_go_on(m: Machine) -> bool {
    m.phase is Next && (m.talk.calls.len() == 0 ==> m.run.state is RunningModel)
}

/// A run under way keeps to all this, whatever the model, the policy and the tools answer: it keeps
/// its name and budget, never uses more than its budget, counts exactly the turns and the calls that
/// it tells of, tells of nothing but itself, and tells of its end once, last, and with the reason.
pub proof fn law_runs_keep_to_their_rules<P: ToolPolicy>(from: World, to: World)
    requires
        trace::leads::<P>(from, to),
        may_go_on(from.machine),
    ensures
        kept(from.machine, to.machine),
{
    reveal(trace::leads);
    let steps = choose|steps: Seq<Step>|
        trace::all_learnt::<P>(from, steps) && to == #[trigger] trace::after(
            from,
            steps,
        );
    lemma_kept_after(from, steps);
}

/// A run that is over has kept to its rules.
pub proof fn law_concluded_runs_kept_to_their_rules<P: ToolPolicy>(
    from: World,
    waiting: Option<ContinuationView>,
    run_after: RunView,
    log_after: Seq<EventView>,
    past_after: Past,
    waiting_after: Option<ContinuationView>,
    result: Result<AgentExecutionResult, AgentExecutionError>,
)
    requires
        executor::concluded::<P>(
            from,
            waiting,
            run_after,
            log_after,
            past_after,
            waiting_after,
            result,
        ),
        may_go_on(from.machine),
    ensures
        match result {
            Ok(answer) => answered(
                from.machine.run,
                from.machine.talk,
                from.machine.log,
                run_after,
                log_after,
                answer@,
            ),
            Err(error) => stopped(
                from.machine.run,
                from.machine.log,
                run_after,
                log_after,
                error@,
            ),
        },
        result is Err && result->Err_0@ is ApprovalRequired ==> {
            &&& waiting_after is Some
            &&& waiting_after->0.calls.len() > 0
            &&& waiting_after->0.calls[0] == (run_after.pending->0).1
            &&& advanced(
                from.machine.run,
                from.machine.talk,
                from.machine.log,
                run_after,
                waiting_after->0,
                log_after,
            )
        },
{
    let outcome = executor::outcome_view(result);
    if result is Err && result->Err_0@ is ApprovalRequired {
        law_runs_keep_to_their_rules::<P>(
            from,
            trace::at(
                run_after,
                waiting_after->0,
                log_after,
                false,
                Phase::Over(outcome),
                past_after,
            ),
        );
    } else {
        let (talk, approved) = choose|talk: ContinuationView, approved: bool| #[trigger]
            trace::leads::<P>(
                from,
                trace::at(
                    run_after,
                    talk,
                    log_after,
                    approved,
                    Phase::Over(outcome),
                    past_after,
                ),
            );
        law_runs_keep_to_their_rules::<P>(
            from,
            trace::at(
                run_after,
                talk,
                log_after,
                approved,
                Phase::Over(outcome),
                past_after,
            ),
        );
    }
}

/// Every call that is run comes to what the tools of the run may give.
pub proof fn law_executed_runs_had_what_tools_give<P: ToolPolicy>(
    run: RunView,
    request: RequestView,
    log: Seq<EventView>,
    past: Past,
    waiting: Option<ContinuationView>,
    run_after: RunView,
    log_after: Seq<EventView>,
    past_after: Past,
    waiting_after: Option<ContinuationView>,
    result: Result<AgentExecutionResult, AgentExecutionError>,
)
    requires
        executor::executed::<P>(
            run,
            request,
            log,
            past,
            waiting,
            run_after,
            log_after,
            past_after,
            waiting_after,
            result,
        ),
    ensures
        past.ran.is_prefix_of(past_after.ran),
        forall|k: int|
            past.ran.len() <= k < past_after.ran.len() ==> (past.gives)(
                (#[trigger] past_after.ran[k]).0,
                past_after.ran[k].1,
            ),
{
    if run.state is Idle {
        let from = executor::started(run, request, log, past);
        let (talk, approved) = reached::<P>(
            from,
            run_after,
            log_after,
            past_after,
            waiting_after,
            result,
        );
        trace::law_calls_come_to_what_tools_give::<P>(
            from,
            trace::at(
                run_after,
                talk,
                log_after,
                approved,
                Phase::Over(executor::outcome_view(result)),
                past_after,
            ),
        );
    }
}

/// The conversation that a run that is over has come to.
pub proof fn reached<P: ToolPolicy>(
    from: World,
    run_after: RunView,
    log_after: Seq<EventView>,
    past_after: Past,
    waiting_after: Option<ContinuationView>,
    result: Result<AgentExecutionResult, AgentExecutionError>,
) -> (r: (ContinuationView, bool))
    requires
        exists|waiting: Option<ContinuationView>| #[trigger]
            executor::concluded::<P>(
                from,
                waiting,
                run_after,
                log_after,
                past_after,
                waiting_after,
                result,
            ),
    ensures
        trace::leads::<P>(
            from,
            trace::at(
                run_after,
                r.0,
                log_after,
                r.1,
                Phase::Over(executor::outcome_view(result)),
                past_after,
            ),
        ),
{
    let outcome = executor::outcome_view(result);
    if result is Err && result->Err_0@ is ApprovalRequired {
        (waiting_after->0, false)
    } else {
        choose|talk: ContinuationView, approved: bool| #[trigger]
            trace::leads::<P>(
                from,
                trace::at(
                    run_after,
                    talk,
                    log_after,
                    approved,
                    Phase::Over(outcome),
                    past_after,
                ),
            )
    }
}

/// A run whose handle only ever tells that it was asked to stop is cancelled: the model, the policy
/// and the tools are not asked, nothing is counted, and the run's watchers are told of its end alone.
pub proof fn law_asked_runs_are_cancelled<P: ToolPolicy>(
    run: RunView,
    request: RequestView,
    log: Seq<EventView>,
    past: Past,
    waiting: Option<ContinuationView>,
    run_after: RunView,
    log_after: Seq<EventView>,
    past_after: Past,
    waiting_after: Option<ContinuationView>,
    result: Result<AgentExecutionResult, AgentExecutionError>,
)
    requires
        executor::executed::<P>(
            run,
            request,
            log,
            past,
            waiting,
            run_after,
            log_after,
            past_after,
            waiting_after,
            result,
        ),
        run.state is Idle,
        forall|asked: bool| run::may_look(run.handle, asked) ==> asked,
    ensures
        executor::outcome_view(result) == Err::<ResultView, ErrorView>(ErrorView::Cancelled),
        run_after == (RunView { state: AgentState::Cancelled, pending: None, ..run }),
        log_after == log.push(EventView { run_id: run.id, kind: EventKind::RunStarted }).push(
            EventView { run_id: run.id, kind: EventKind::Cancelled },
        ),
        past_after == (Past {
            looked: past.looked.push(
                Look {
                    handle: run.handle,
                    asked: true,
                    turns: past.asked.len(),
                    judged: past.judged.len(),
                    calls: past.ran.len(),
                    told: log.len() + 1,
                },
            ),
            ..past
        }),
        waiting_after == waiting,
{
    let from = executor::started(run, request, log, past);
    let outcome = executor::outcome_view(result);
    let (talk, approved) = reached::<P>(
        from,
        run_after,
        log_after,
        past_after,
        waiting_after,
        result,
    );
    trace::law_asked_runs_stop_at_once::<P>(
        from,
        trace::at(run_after, talk, log_after, approved, Phase::Over(outcome), past_after),
    );
}

/// A run that is over has followed every look at its handle. Where the last look told that it was
/// asked to stop, it is over as cancelled, and nothing was asked, decided or run behind that look.
pub proof fn law_concluded_runs_followed_their_looks<P: ToolPolicy>(
    from: World,
    waiting: Option<ContinuationView>,
    run_after: RunView,
    log_after: Seq<EventView>,
    past_after: Past,
    waiting_after: Option<ContinuationView>,
    result: Result<AgentExecutionResult, AgentExecutionError>,
)
    requires
        executor::concluded::<P>(
            from,
            waiting,
            run_after,
            log_after,
            past_after,
            waiting_after,
            result,
        ),
        from.machine.phase is Next,
    ensures
        exists|talk: ContinuationView, approved: bool|
            trace::all_followed(
                from,
                #[trigger] trace::at(
                    run_after,
                    talk,
                    log_after,
                    approved,
                    Phase::Over(executor::outcome_view(result)),
                    past_after,
                ),
            ),
        from.past.looked.len() < past_after.looked.len(),
        past_after.looked.last().asked ==> {
            let look = past_after.looked.last();
            &&& executor::outcome_view(result) == Err::<ResultView, ErrorView>(
                ErrorView::Cancelled,
            )
            &&& run::terminal(run_after.state)
            &&& past_after.asked.len() == look.turns
            &&& past_after.judged.len() == look.judged
            &&& past_after.ran.len() == look.calls
        },
        forall|k: int|
            from.past.looked.len() <= k < past_after.looked.len() - 1
                ==> !(#[trigger] past_after.looked[k]).asked,
{
    let (talk, approved) = reached::<P>(
        from,
        run_after,
        log_after,
        past_after,
        waiting_after,
        result,
    );
    let to = trace::at(
        run_after,
        talk,
        log_after,
        approved,
        Phase::Over(executor::outcome_view(result)),
        past_after,
    );
    trace::law_looks_are_followed::<P>(from, to);
    assert(trace::followed(to, past_after.looked.len() - 1));
    assert forall|k: int|
        from.past.looked.len() <= k < past_after.looked.len() - 1 implies !(
    #[trigger] past_after.looked[k]).asked by {
        assert(trace::followed(to, k));
    }
}

/// A call that was told to wait for the user can be approved, and can be denied, under the id that
/// was told.
pub proof fn law_waiting_calls_can_be_resolved<P: ToolPolicy>(
    from: World,
    waiting: Option<ContinuationView>,
    run_after: RunView,
    log_after: Seq<EventView>,
    past_after: Past,
    waiting_after: Option<ContinuationView>,
    error: AgentExecutionError,
    approval: ApprovalView,
)
    requires
        executor::concluded::<P>(
            from,
            waiting,
            run_after,
            log_after,
            past_after,
            waiting_after,
            Err(error),
        ),
        may_go_on(from.machine),
        error@ == ErrorView::ApprovalRequired(approval),
    ensures
        executor::approval_problem(run_after, waiting_after, approval.approval_id) is None,
{
    law_concluded_runs_kept_to_their_rules::<P>(
        from,
        waiting,
        run_after,
        log_after,
        past_after,
        waiting_after,
        Err(error),
    );
}

/// No run uses more than its budget, whatever the model, the tools and the policy do.
pub proof fn law_runs_stay_within_budget<P: ToolPolicy>(
    from: World,
    waiting: Option<ContinuationView>,
    run_after: RunView,
    log_after: Seq<EventView>,
    past_after: Past,
    waiting_after: Option<ContinuationView>,
    result: Result<AgentExecutionResult, AgentExecutionError>,
)
    requires
        executor::concluded::<P>(
            from,
            waiting,
            run_after,
            log_after,
            past_after,
            waiting_after,
            result,
        ),
        may_go_on(from.machine),
        run::within_budget(from.machine.run),
    ensures
        run::within_budget(run_after),
        turns_in(news(from.machine.log, log_after)) <= from.machine.run.budget.max_provider_turns,
        requests_in(news(from.machine.log, log_after)) <= from.machine.run.budget.max_tool_calls,
{
    law_concluded_runs_kept_to_their_rules::<P>(
        from,
        waiting,
        run_after,
        log_after,
        past_after,
        waiting_after,
        result,
    );
}

/// Every event of a run belongs to it, so that a watcher of another run takes it for stale.
pub proof fn law_events_belong_to_their_run<P: ToolPolicy>(
    from: World,
    waiting: Option<ContinuationView>,
    run_after: RunView,
    log_after: Seq<EventView>,
    past_after: Past,
    waiting_after: Option<ContinuationView>,
    result: Result<AgentExecutionResult, AgentExecutionError>,
)
    requires
        executor::concluded::<P>(
            from,
            waiting,
            run_after,
            log_after,
            past_after,
            waiting_after,
            result,
        ),
        may_go_on(from.machine),
    ensures
        from.machine.log.is_prefix_of(log_after),
        forall|k: int|
            from.machine.log.len() <= k < log_after.len() ==> (#[trigger] log_after[k]).run_id
                == from.machine.run.id,
{
    law_concluded_runs_kept_to_their_rules::<P>(
        from,
        waiting,
        run_after,
        log_after,
        past_after,
        waiting_after,
        result,
    );
    let log = from.machine.log;
    let said = news(log, log_after);
    assert forall|k: int| log.len() <= k < log_after.len() implies (
    #[trigger] log_after[k]).run_id == from.machine.run.id by {
        assert(said[k - log.len()] == log_after[k]);
    }
}

/// An answer that is complete, in pieces or at once, is the same text.
pub proof fn law_answer_is_what_was_told<P: ToolPolicy>(
    from: World,
    request: RequestView,
    waiting: Option<ContinuationView>,
    run_after: RunView,
    log_after: Seq<EventView>,
    past_after: Past,
    waiting_after: Option<ContinuationView>,
    answer: AgentExecutionResult,
)
    requires
        executor::concluded::<P>(
            from,
            waiting,
            run_after,
            log_after,
            past_after,
            waiting_after,
            Ok(answer),
        ),
        may_go_on(from.machine),
        from.machine.talk == executor::fresh(request),
    ensures
        answer@.content == content_in(news(from.machine.log, log_after)),
        answer@.thinking == thinking_in(news(from.machine.log, log_after)),
        request.messages.is_prefix_of(answer@.messages),
{
    law_concluded_runs_kept_to_their_rules::<P>(
        from,
        waiting,
        run_after,
        log_after,
        past_after,
        waiting_after,
        Ok(answer),
    );
    let said = news(from.machine.log, log_after);
    assert(Seq::<char>::empty() + content_in(said) =~= content_in(said));
    assert(Seq::<char>::empty() + thinking_in(said) =~= thinking_in(said));
}

} // verus!
