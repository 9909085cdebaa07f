//! What a model is asked in each turn of a run, and what becomes of what it says.

use vstd::prelude::*;
use vstd::string::*;

use crate::executor;
use crate::executor::ContinuationView;
use crate::executor::DecisionView;
use crate::executor::ErrorView;
use crate::executor::Exchange;
use crate::executor::GivenView;
use crate::executor::ResultView;
use crate::executor::ToolPolicy;
use crate::executor::TurnProgress;
use crate::executor::TurnView;
use crate::json;
use crate::provider::ChatRole;
use crate::provider::MessageView;
use crate::provider::RequestView;
use crate::provider::StreamEventView;
use crate::provider::ToolCallView;
use crate::run;
use crate::run::AgentRunId;
use crate::run::ApprovalId;
use crate::run::BudgetResource;
use crate::text;
use crate::trace;
use crate::trace::Judgement;
use crate::trace::Machine;
use crate::trace::Phase;
use crate::trace::Step;
use crate::trace::World;

verus! {

/// Whether a message is one of the user, or one that instructs the model.
pub open spec fn of_user_or_system(message: MessageView) -> bool {
    message.role is User || message.role is System
}

/// Whether a request shows exactly those messages of another that are of the user or instruct the
/// model, at some positions and in their order, and one more behind them.
pub open spec fn shows_question(asked: RequestView, shown: RequestView, from: Seq<int>) -> bool {
    &&& shown.messages.len() == from.len() + 1
    &&& forall|k: int|
        0 <= k < from.len() ==> 0 <= #[trigger] from[k] < asked.messages.len() && shown.messages[k]
            == asked.messages[from[k]] && of_user_or_system(asked.messages[from[k]])
    &&& forall|i: int, j: int| 0 <= i < j < from.len() ==> #[trigger] from[i] < #[trigger] from[j]
    &&& forall|i: int|
        0 <= i < asked.messages.len() && of_user_or_system(#[trigger] asked.messages[i])
            ==> from.contains(i)
}

/// How the result of a tool is told in the final turn.
pub open spec fn result_entry(message: MessageView) -> Seq<char> {
    "[tool result "@ + (match message.tool_call_id {
        Some(id) => id,
        None => "unknown"@,
    }) + "]\n"@ + message.content
}

/// Whether the results of all tools of a conversation stand in a text, in their order.
pub open spec fn results_told(messages: Seq<MessageView>, told: Seq<char>, at: Seq<int>) -> bool {
    &&& at.len() == messages.len()
    &&& forall|i: int|
        0 <= i < messages.len() && (#[trigger] messages[i]).role is Tool ==> text::occurs_at(
            told,
            result_entry(messages[i]),
            at[i],
        )
    &&& forall|i: int, j: int|
        0 <= i < j < messages.len() && (#[trigger] messages[i]).role is Tool && (
        #[trigger] messages[j]).role is Tool ==> at[i] + result_entry(messages[i]).len() <= at[j]
}

proof fn lemma_still_occurs(head: Seq<char>, tail: Seq<char>, pattern: Seq<char>, at: int)
    requires
        text::occurs_at(head, pattern, at),
    ensures
        text::occurs_at(head + tail, pattern, at),
{
    assert((head + tail).subrange(at, at + pattern.len()) =~= head.subrange(at, at + pattern.len()));
}

proof fn lemma_results_told(messages: Seq<MessageView>) -> (at: Seq<int>)
    ensures
        results_told(messages, text::join(executor::tool_results(messages), "\n\n"@), at),
    decreases messages.len(),
{
    let is_tool = |m: MessageView| m.role is Tool;
    let results = executor::tool_results(messages);
    reveal(Seq::filter);
    if messages.len() == 0 {
        Seq::empty()
    } else {
        let n = messages.len() - 1;
        let rest = messages.drop_last();
        let before = executor::tool_results(rest);
        let known = lemma_results_told(rest);
        let head = text::join(before, "\n\n"@);
        let whole = text::join(results, "\n\n"@);
        let last = messages.last();
        let entry = result_entry(last);
        if last.role is Tool {
            assert(results =~= before.push(entry));
            assert(results.drop_last() =~= before);
            let start = whole.len() - entry.len();
            if before.len() == 0 {
                assert(whole =~= entry);
            } else {
                assert(whole =~= head + ("\n\n"@ + entry));
            }
            assert(whole.subrange(start, start + entry.len()) =~= entry);
            let at = known.push(start);
            assert forall|i: int| 0 <= i < messages.len() && (
            #[trigger] messages[i]).role is Tool implies text::occurs_at(
                whole,
                result_entry(messages[i]),
                at[i],
            ) by {
                if i < n {
                    assert(rest[i] == messages[i]);
                    if before.len() == 0 {
                        lemma_some_result(rest, i);
                    }
                    lemma_still_occurs(head, "\n\n"@ + entry, result_entry(messages[i]), at[i]);
                }
            }
            assert forall|i: int, j: int|
                0 <= i < j < messages.len() && (#[trigger] messages[i]).role is Tool && (
                #[trigger] messages[j]).role is Tool implies at[i] + result_entry(
                messages[i],
            ).len() <= at[j] by {
                assert(rest[i] == messages[i]);
                if j < n {
                    assert(rest[j] == messages[j]);
                } else {
                    if before.len() == 0 {
                        lemma_some_result(rest, i);
                    }
                    assert(text::occurs_at(head, result_entry(rest[i]), known[i]));
                }
            }
            at
        } else {
            assert(results =~= before);
            let at = known.push(0);
            assert forall|i: int| 0 <= i < messages.len() && (
            #[trigger] messages[i]).role is Tool implies text::occurs_at(
                whole,
                result_entry(messages[i]),
                at[i],
            ) by {
                assert(rest[i] == messages[i]);
            }
            assert forall|i: int, j: int|
                0 <= i < j < messages.len() && (#[trigger] messages[i]).role is Tool && (
                #[trigger] messages[j]).role is Tool implies at[i] + result_entry(
                messages[i],
            ).len() <= at[j] by {
                assert(rest[i] == messages[i]);
                assert(rest[j] == messages[j]);
            }
            at
        }
    }
}

proof fn lemma_some_result(messages: Seq<MessageView>, i: int)
    requires
        0 <= i < messages.len(),
        messages[i].role is Tool,
    ensures
        executor::tool_results(messages).len() > 0,
{
    let is_tool = |m: MessageView| m.role is Tool;
    messages.lemma_filter_contains(is_tool, i);
}

/// In the final turn the model is shown everything that the user wrote and everything that instructs
/// it, in their order; only messages of the assistant and of tools are left out. One message more
/// tells that no tools can be called, and the results of all tools in their order. No tools are
/// offered; the model and its thinking are as they were asked for.
pub proof fn law_final_turns_show_the_question(request: RequestView)
    ensures
        ({
            let shown = executor::final_request(request);
            let told = shown.messages.last();
            &&& exists|from: Seq<int>| #[trigger] shows_question(request, shown, from)
            &&& shown.tools is None
            &&& shown.model == request.model
            &&& shown.think == request.think
            &&& told.role is System
            &&& told.tool_calls.len() == 0
            &&& told.tool_call_id is None
            &&& told.reasoning is None
            &&& "Final response mode: tools are disabled. Do not emit tool calls or tool-call markup. Produce only the final user-facing answer using the read-only tool results below."@.is_prefix_of(
                told.content,
            )
            &&& exists|at: Seq<int>| #[trigger] results_told(request.messages, told.content, at)
        }),
{
    let shown = executor::final_request(request);
    let told = shown.messages.last();
    let keep = |m: MessageView| executor::kept_for_final(m);
    let from = text::lemma_filter_positions(request.messages, keep);
    assert forall|k: int| 0 <= k < from.len() implies 0 <= #[trigger] from[k]
        < request.messages.len() && shown.messages[k] == request.messages[from[k]]
        && of_user_or_system(request.messages[from[k]]) by {
        assert(keep(request.messages[from[k]]));
    }
    assert forall|i: int|
        0 <= i < request.messages.len() && of_user_or_system(
            #[trigger] request.messages[i],
        ) implies from.contains(i) by {
        assert(keep(request.messages[i]));
    }
    assert(shows_question(request, shown, from));
    let instruction =
        "Final response mode: tools are disabled. Do not emit tool calls or tool-call markup. Produce only the final user-facing answer using the read-only tool results below."@;
    let results = executor::tool_results(request.messages);
    let joined = text::join(results, "\n\n"@);
    let at = lemma_results_told(request.messages);
    if results.len() == 0 {
        assert(instruction =~= told.content.subrange(0, instruction.len() as int));
        assert forall|i: int| 0 <= i < request.messages.len() implies !((
        #[trigger] request.messages[i]).role is Tool) by {
            if request.messages[i].role is Tool {
                lemma_some_result(request.messages, i);
            }
        }
        assert(results_told(request.messages, told.content, at));
    } else {
        let head = instruction + "\n\n"@;
        assert(told.content == head + joined);
        assert(instruction =~= told.content.subrange(0, instruction.len() as int));
        let moved = at.map_values(|k: int| k + head.len());
        assert forall|i: int| 0 <= i < request.messages.len() && (
        #[trigger] request.messages[i]).role is Tool implies text::occurs_at(
            told.content,
            result_entry(request.messages[i]),
            moved[i],
        ) by {
            let entry = result_entry(request.messages[i]);
            assert(text::occurs_at(joined, entry, at[i]));
            assert((head + joined).subrange(moved[i], moved[i] + entry.len())
                =~= joined.subrange(at[i], at[i] + entry.len()));
        }
        assert(results_told(request.messages, told.content, moved));
    }
}

/// What a series of events of a model says as content.
pub open spec fn content_said(said: Seq<StreamEventView>) -> Seq<char>
    decreases said.len(),
{
    if said.len() == 0 {
        Seq::empty()
    } else {
        content_said(said.drop_last()) + match said.last() {
            StreamEventView::ContentDelta(delta) => delta,
            _ => Seq::empty(),
        }
    }
}

/// What a series of events of a model says as thinking.
pub open spec fn thinking_said(said: Seq<StreamEventView>) -> Seq<char>
    decreases said.len(),
{
    if said.len() == 0 {
        Seq::empty()
    } else {
        thinking_said(said.drop_last()) + match said.last() {
            StreamEventView::ThinkingDelta(delta) => delta,
            _ => Seq::empty(),
        }
    }
}

/// The calls that a series of events of a model makes.
pub open spec fn calls_said(said: Seq<StreamEventView>) -> Seq<ToolCallView>
    decreases said.len(),
{
    if said.len() == 0 {
        Seq::empty()
    } else {
        match said.last() {
            StreamEventView::ToolCall(call) => calls_said(said.drop_last()).push(call),
            _ => calls_said(said.drop_last()),
        }
    }
}

/// The content of some turns of a model.
pub open spec fn content_of(turns: Seq<Exchange>) -> Seq<char>
    decreases turns.len(),
{
    if turns.len() == 0 {
        Seq::empty()
    } else {
        content_of(turns.drop_last()) + content_said(turns.last().said)
    }
}

/// The thinking of some turns of a model.
pub open spec fn thinking_of(turns: Seq<Exchange>) -> Seq<char>
    decreases turns.len(),
{
    if turns.len() == 0 {
        Seq::empty()
    } else {
        thinking_of(turns.drop_last()) + thinking_said(turns.last().said)
    }
}

/// The calls of some turns of a model.
pub open spec fn calls_of(turns: Seq<Exchange>) -> Seq<ToolCallView>
    decreases turns.len(),
{
    if turns.len() == 0 {
        Seq::empty()
    } else {
        calls_of(turns.drop_last()) + calls_said(turns.last().said)
    }
}

proof fn lemma_accepted(before: TurnProgress, said: Seq<StreamEventView>)
    requires
        before.turn.calls.len() == 0,
        before.turn.final_content.len() == 0,
    ensures
        ({
            let after = executor::accept_all(before, said);
            &&& after.turn.finalization == before.turn.finalization
            &&& after.continuation.content + after.turn.final_content
                == before.continuation.content + content_said(said)
            &&& !before.turn.finalization ==> after.turn.final_content.len() == 0
            &&& before.turn.finalization ==> after.continuation.content
                == before.continuation.content
            &&& after.continuation.thinking == before.continuation.thinking + thinking_said(said)
            &&& after.turn.calls == calls_said(said)
            &&& after.continuation.request == before.continuation.request
            &&& after.continuation.calls == before.continuation.calls
        }),
    decreases said.len(),
{
    let after = executor::accept_all(before, said);
    if said.len() == 0 {
        assert(before.turn.calls =~= Seq::<ToolCallView>::empty());
        assert(after.continuation.content + after.turn.final_content
            =~= before.continuation.content + content_said(said));
        assert(after.continuation.thinking =~= before.continuation.thinking + thinking_said(said));
    } else {
        lemma_accepted(before, said.drop_last());
        let mid = executor::accept_all(before, said.drop_last());
        match said.last() {
            StreamEventView::ContentDelta(delta) => {
                if before.turn.finalization {
                    assert(after.turn.final_content =~= mid.turn.final_content + delta);
                    assert(after.continuation.content + after.turn.final_content =~= (
                    mid.continuation.content + mid.turn.final_content) + delta);
                } else {
                    assert(mid.continuation.content + mid.turn.final_content
                        =~= mid.continuation.content);
                    assert(after.continuation.content + after.turn.final_content
                        =~= mid.continuation.content + delta);
                }
            },
            _ => {},
        }
        assert(after.continuation.content + after.turn.final_content =~= before.continuation.content
            + content_said(said));
        assert(after.continuation.thinking =~= before.continuation.thinking + thinking_said(said));
    }
}

/// The turns that a model had since some point.
pub open spec fn turns_since(from: World, to: World) -> Seq<Exchange> {
    to.past.asked.skip(from.past.asked.len() as int)
}

/// Whether a run is still going on, has given its answer, or waits for the user.
pub open spec fn in_order(m: Machine) -> bool {
    match m.phase {
        Phase::Over(Ok(_)) => true,
        Phase::Over(Err(error)) => error is ApprovalRequired,
        Phase::Astray => false,
        _ => true,
    }
}

spec fn words_kept(from: World, w: World) -> bool {
    let content = from.machine.talk.content + content_of(turns_since(from, w));
    let thinking = from.machine.talk.thinking + thinking_of(turns_since(from, w));
    &&& from.past.asked.is_prefix_of(w.past.asked)
    &&& in_order(w.machine) ==> w.machine.talk.thinking == thinking
    &&& in_order(w.machine) ==> match w.machine.phase {
        Phase::Heard(turn) => w.machine.talk.content + turn.final_content == content && (
        !turn.finalization ==> turn.final_content.len() == 0),
        Phase::Over(Ok(answer)) => answer.content == content && answer.thinking == thinking
            && w.machine.talk.content == content,
        _ => w.machine.talk.content == content,
    }
}

proof fn lemma_more_turns(from: World, w: World, turn: Exchange)
    requires
        from.past.asked.is_prefix_of(w.past.asked),
    ensures
        w.past.asked.push(turn).skip(from.past.asked.len() as int) == turns_since(from, w).push(
            turn,
        ),
        turns_since(from, w).push(turn).drop_last() == turns_since(from, w),
        from.past.asked.is_prefix_of(w.past.asked.push(turn)),
{
    let n = from.past.asked.len() as int;
    assert(w.past.asked.push(turn).skip(n) =~= turns_since(from, w).push(turn));
    assert(turns_since(from, w).push(turn).drop_last() =~= turns_since(from, w));
    assert(from.past.asked =~= w.past.asked.push(turn).subrange(0, n)) by {
        assert(from.past.asked =~= w.past.asked.subrange(0, n));
    }
}

proof fn lemma_words_step(from: World, w: World, s: Step)
    requires
        words_kept(from, w),
    ensures
        words_kept(from, trace::advance(w, s)),
{
    reveal(trace::step);
    let m = w.machine;
    match (m.phase, s) {
        (Phase::Ask(request, final_turn), Step::Asked(turn)) => {
            lemma_more_turns(from, w, turn);
            lemma_accepted(
                TurnProgress {
                    continuation: m.talk,
                    turn: executor::silent(final_turn),
                    told: Seq::empty(),
                },
                turn.said,
            );
            assert(from.machine.talk.content + content_of(turns_since(from, w).push(turn)) =~= (
            from.machine.talk.content + content_of(turns_since(from, w))) + content_said(turn.said));
            assert(from.machine.talk.thinking + thinking_of(turns_since(from, w).push(turn)) =~= (
            from.machine.talk.thinking + thinking_of(turns_since(from, w))) + thinking_said(
                turn.said,
            ));
        },
        (_, Step::Asked(turn)) => {
            lemma_more_turns(from, w, turn);
        },
        (Phase::Heard(turn), Step::Looked(_)) => {
            if !turn.finalization {
                assert(m.talk.content + turn.final_content =~= m.talk.content);
            }
        },
        _ => {},
    }
}

proof fn lemma_words_after(from: World, steps: Seq<Step>)
    requires
        from.machine.phase is Next,
    ensures
        words_kept(from, trace::after(from, steps)),
    decreases steps.len(),
{
    if steps.len() == 0 {
        let none = turns_since(from, from);
        assert(none =~= Seq::<Exchange>::empty());
        assert(from.machine.talk.content + content_of(none) =~= from.machine.talk.content);
        assert(from.machine.talk.thinking + thinking_of(none) =~= from.machine.talk.thinking);
        assert(from.past.asked =~= from.past.asked.subrange(0, from.past.asked.len() as int));
    } else {
        lemma_words_after(from, steps.drop_last());
        lemma_words_step(from, trace::after(from, steps.drop_last()), steps.last());
    }
}

/// The answer of a run is everything that the model said in its turns, in their order, behind what
/// was said before: all content as content and all thinking as thinking.
pub proof fn law_answers_are_what_the_model_said<P: ToolPolicy>(
    from: World,
    to: World,
    answer: ResultView,
)
    requires
        trace::leads::<P>(from, to),
        from.machine.phase is Next,
        to.machine.phase == Phase::Over(Ok(answer)),
    ensures
        from.past.asked.is_prefix_of(to.past.asked),
        answer.content == from.machine.talk.content + content_of(turns_since(from, to)),
        answer.thinking == from.machine.talk.thinking + thinking_of(turns_since(from, to)),
{
    reveal(trace::leads);
    let steps = choose|steps: Seq<Step>|
        trace::all_learnt::<P>(from, steps) && to == #[trigger] trace::after(from, steps);
    lemma_words_after(from, steps);
}

/// Whether a request is what is due in a turn of a run. Before the last turn that the budget covers,
/// the model is shown the whole conversation and offered the same tools; in the last one it is offered
/// none, but still shown what the user wrote and what instructs it.
pub open spec fn due(from: World, k: int, request: RequestView) -> bool {
    let begun = from.machine.talk.request;
    let turn = from.machine.run.usage.provider_turns + (k - from.past.asked.len()) + 1;
    let most = from.machine.run.budget.max_provider_turns;
    &&& turn <= most
    &&& request.model == begun.model
    &&& request.think == begun.think
    &&& turn < most ==> request.tools == begun.tools && begun.messages.is_prefix_of(
        request.messages,
    )
    &&& turn == most ==> request.tools is None && forall|i: int|
        0 <= i < begun.messages.len() && of_user_or_system(#[trigger] begun.messages[i])
            ==> request.messages.contains(begun.messages[i])
}

spec fn turns_due(from: World, w: World) -> bool {
    let m = w.machine;
    let begun = from.machine.talk.request;
    &&& from.past.asked.is_prefix_of(w.past.asked)
    &&& m.run.budget == from.machine.run.budget
    &&& !(m.phase is Astray) ==> {
        &&& m.run.usage.provider_turns == from.machine.run.usage.provider_turns + (
        w.past.asked.len() - from.past.asked.len()) + (if m.phase is Ask {
            1int
        } else {
            0
        })
        &&& begun.messages.is_prefix_of(m.talk.request.messages)
        &&& m.talk.request == (RequestView { messages: m.talk.request.messages, ..begun })
        &&& forall|k: int|
            from.past.asked.len() <= k < w.past.asked.len() ==> due(
                from,
                k,
                (#[trigger] w.past.asked[k]).request,
            )
        &&& match m.phase {
            Phase::Ask(request, _) => due(from, w.past.asked.len() as int, request),
            _ => true,
        }
    }
}

proof fn lemma_final_due(request: RequestView, begun: RequestView)
    requires
        begun.messages.is_prefix_of(request.messages),
    ensures
        forall|i: int|
            0 <= i < begun.messages.len() && of_user_or_system(#[trigger] begun.messages[i])
                ==> executor::final_request(request).messages.contains(begun.messages[i]),
{
    law_final_turns_show_the_question(request);
    let shown = executor::final_request(request);
    let from = choose|from: Seq<int>| #[trigger] shows_question(request, shown, from);
    assert forall|i: int|
        0 <= i < begun.messages.len() && of_user_or_system(
            #[trigger] begun.messages[i],
        ) implies shown.messages.contains(begun.messages[i]) by {
        assert(begun.messages[i] == request.messages[i]);
        assert(from.contains(i));
        let k = choose|k: int| 0 <= k < from.len() && from[k] == i;
        assert(shown.messages[k] == request.messages[from[k]]);
    }
}

proof fn lemma_grown(begun: Seq<MessageView>, now: Seq<MessageView>, message: MessageView)
    requires
        begun.is_prefix_of(now),
    ensures
        begun.is_prefix_of(now.push(message)),
{
    assert(begun =~= now.push(message).subrange(0, begun.len() as int)) by {
        assert(begun =~= now.subrange(0, begun.len() as int));
    }
}

proof fn lemma_due_step(from: World, w: World, s: Step)
    requires
        turns_due(from, w),
    ensures
        turns_due(from, trace::advance(w, s)),
{
    let to = trace::advance(w, s);
    let m = w.machine;
    let begun = from.machine.talk.request;
    trace::lemma_same_run(m, s);
    reveal(trace::step);
    match (m.phase, s) {
        (Phase::Next, Step::Looked(_)) => {
            lemma_final_due(m.talk.request, begun);
        },
        (Phase::Ask(request, final_turn), Step::Asked(turn)) => {
            lemma_more_turns(from, w, turn);
            lemma_accepted(
                TurnProgress {
                    continuation: m.talk,
                    turn: executor::silent(final_turn),
                    told: Seq::empty(),
                },
                turn.said,
            );
            if turn.request == request {
                assert forall|k: int| from.past.asked.len() <= k < to.past.asked.len() implies due(
                    from,
                    k,
                    (#[trigger] to.past.asked[k]).request,
                ) by {
                    if k < w.past.asked.len() {
                        assert(to.past.asked[k] == w.past.asked[k]);
                    }
                }
            }
        },
        (_, Step::Asked(turn)) => {
            lemma_more_turns(from, w, turn);
        },
        (Phase::Heard(turn), Step::Looked(_)) => {
            lemma_grown(
                begun.messages,
                m.talk.request.messages,
                executor::assistant_message(turn),
            );
        },
        (Phase::Decide(call), Step::Decided(_, decision)) => {
            match decision {
                DecisionView::Deny(reason) => {
                    lemma_grown(
                        begun.messages,
                        m.talk.request.messages,
                        executor::tool_message_view(call.id, executor::denial_text(reason)),
                    );
                },
                _ => {},
            }
        },
        (Phase::Run(call), Step::Ran(_, given)) => {
            match given {
                GivenView::Told { content, .. } => {
                    lemma_grown(
                        begun.messages,
                        m.talk.request.messages,
                        executor::tool_message_view(call.id, content),
                    );
                },
                _ => {},
            }
        },
        _ => {},
    }
}

proof fn lemma_due_after(from: World, steps: Seq<Step>)
    requires
        from.machine.phase is Next,
    ensures
        turns_due(from, trace::after(from, steps)),
    decreases steps.len(),
{
    if steps.len() == 0 {
        assert(from.past.asked =~= from.past.asked.subrange(0, from.past.asked.len() as int));
        let messages = from.machine.talk.request.messages;
        assert(messages =~= messages.subrange(0, messages.len() as int));
    } else {
        lemma_due_after(from, steps.drop_last());
        lemma_due_step(from, trace::after(from, steps.drop_last()), steps.last());
    }
}

/// In each of its turns the model is asked what is due.
pub proof fn law_turns_are_asked_what_is_due<P: ToolPolicy>(from: World, to: World, k: int)
    requires
        trace::leads::<P>(from, to),
        from.machine.phase is Next,
        !(to.machine.phase is Astray),
        from.past.asked.len() <= k < to.past.asked.len(),
    ensures
        from.past.asked.is_prefix_of(to.past.asked),
        due(from, k, to.past.asked[k].request),
{
    reveal(trace::leads);
    let steps = choose|steps: Seq<Step>|
        trace::all_learnt::<P>(from, steps) && to == #[trigger] trace::after(from, steps);
    lemma_due_after(from, steps);
}

/// The message by which a model is told what came of a call.
pub open spec fn told(call: ToolCallView, content: Seq<char>) -> MessageView {
    MessageView {
        role: ChatRole::Tool,
        content,
        reasoning: None,
        tool_call_id: call.id,
        tool_calls: Seq::empty(),
    }
}

/// Whether the conversation holds what came of every call since some point: what each tool gave, and
/// the refusal of each call that the policy denied.
pub open spec fn all_told(from: World, w: World) -> bool {
    let messages = w.machine.talk.request.messages;
    &&& forall|k: int|
        from.past.ran.len() <= k < w.past.ran.len() ==> match (#[trigger] w.past.ran[k]).1 {
            GivenView::Told { content, .. } => messages.contains(told(w.past.ran[k].0, content)),
            GivenView::Broken(_) => w.machine.phase is Over,
        }
    &&& forall|k: int|
        from.past.judged.len() <= k < w.past.judged.len() ==> match (
        #[trigger] w.past.judged[k]).decision {
            DecisionView::Deny(reason) => messages.contains(
                told(w.past.judged[k].call, "tool execution denied by policy: "@ + reason),
            ),
            _ => true,
        }
}

proof fn lemma_told_on(from: World, w: World, to: World)
    requires
        all_told(from, w),
        to.past.ran == w.past.ran,
        to.past.judged == w.past.judged,
        w.machine.talk.request.messages.is_prefix_of(to.machine.talk.request.messages),
        w.machine.phase is Over ==> to.machine.phase is Over,
    ensures
        all_told(from, to),
{
    let before = w.machine.talk.request.messages;
    let after = to.machine.talk.request.messages;
    assert forall|message: MessageView| before.contains(message) implies #[trigger] after.contains(
        message,
    ) by {
        let i = choose|i: int| 0 <= i < before.len() && before[i] == message;
        assert(after[i] == before[i]);
    }
}

proof fn lemma_told_step(from: World, w: World, s: Step)
    requires
        w.machine.phase is Astray || all_told(from, w),
    ensures
        trace::advance(w, s).machine.phase is Astray || all_told(from, trace::advance(w, s)),
{
    let to = trace::advance(w, s);
    let m = w.machine;
    let before = m.talk.request.messages;
    let after = to.machine.talk.request.messages;
    reveal(trace::step);
    if !(to.machine.phase is Astray) {
        assert(!(m.phase is Over));
        assert(before =~= before.subrange(0, before.len() as int));
        match s {
            Step::Looked(_) => {
                match m.phase {
                    Phase::Heard(turn) => {
                        lemma_grown(before, before, executor::assistant_message(turn));
                    },
                    _ => {},
                }
                lemma_told_on(from, w, to);
            },
            Step::Asked(turn) => {
                lemma_accepted(
                    TurnProgress {
                        continuation: m.talk,
                        turn: executor::silent(m.phase->Ask_1),
                        told: Seq::empty(),
                    },
                    turn.said,
                );
                lemma_told_on(from, w, to);
            },
            Step::Decided(call, decision) => {
                let n = w.past.judged.len() as int;
                match decision {
                    DecisionView::Deny(reason) => {
                        let message = told(call, "tool execution denied by policy: "@ + reason);
                        assert(after =~= before.push(message));
                        lemma_grown(before, before, message);
                        assert(after[before.len() as int] == message);
                    },
                    _ => {
                        assert(after == before);
                    },
                }
                let mid = World { past: w.past, ..to };
                lemma_told_on(from, w, mid);
                assert forall|k: int|
                    from.past.judged.len() <= k < to.past.judged.len() implies match (
                #[trigger] to.past.judged[k]).decision {
                    DecisionView::Deny(reason) => after.contains(
                        told(
                            to.past.judged[k].call,
                            "tool execution denied by policy: "@ + reason,
                        ),
                    ),
                    _ => true,
                } by {
                    if k < n {
                        assert(to.past.judged[k] == mid.past.judged[k]);
                    }
                }
            },
            Step::Ran(call, given) => {
                let n = w.past.ran.len() as int;
                match given {
                    GivenView::Told { content, .. } => {
                        let message = told(call, content);
                        assert(after =~= before.push(message));
                        lemma_grown(before, before, message);
                        assert(after[before.len() as int] == message);
                    },
                    _ => {
                        assert(after == before);
                    },
                }
                let mid = World { past: w.past, ..to };
                lemma_told_on(from, w, mid);
                assert forall|k: int| from.past.ran.len() <= k < to.past.ran.len() implies match (
                #[trigger] to.past.ran[k]).1 {
                    GivenView::Told { content, .. } => after.contains(
                        told(to.past.ran[k].0, content),
                    ),
                    GivenView::Broken(_) => to.machine.phase is Over,
                } by {
                    if k < n {
                        assert(to.past.ran[k] == mid.past.ran[k]);
                    }
                }
            },
        }
    }
}

proof fn lemma_told_after(from: World, steps: Seq<Step>)
    ensures
        ({
            let to = trace::after(from, steps);
            to.machine.phase is Astray || all_told(from, to)
        }),
    decreases steps.len(),
{
    if steps.len() > 0 {
        lemma_told_after(from, steps.drop_last());
        lemma_told_step(from, trace::after(from, steps.drop_last()), steps.last());
    }
}

/// What came of every call is told to the model: at each turn the conversation holds the content that
/// each tool gave and the refusal of each call that the policy denied, under the id of the call; and
/// so does the conversation of the answer.
pub proof fn law_what_came_of_calls_is_told<P: ToolPolicy>(from: World, to: World)
    requires
        trace::leads::<P>(from, to),
        !(to.machine.phase is Astray),
    ensures
        all_told(from, to),
{
    reveal(trace::leads);
    let steps = choose|steps: Seq<Step>|
        trace::all_learnt::<P>(from, steps) && to == #[trigger] trace::after(from, steps);
    lemma_told_after(from, steps);
}

/// The calls that the policy was asked about.
pub open spec fn judged_calls(judged: Seq<Judgement>) -> Seq<ToolCallView> {
    judged.map_values(|j: Judgement| j.call)
}

spec fn calls_kept(from: World, w: World) -> bool {
    let m = w.machine;
    let said = calls_of(turns_since(from, w));
    let judged = judged_calls(w.past.judged.skip(from.past.judged.len() as int));
    &&& from.past.asked.is_prefix_of(w.past.asked)
    &&& from.past.judged.is_prefix_of(w.past.judged)
    &&& in_order(m) ==> !m.approved
    &&& in_order(m) ==> match m.phase {
        Phase::Heard(turn) => m.talk.calls.len() == 0 && judged + turn.calls == said,
        Phase::Ask(_, _) | Phase::Answered | Phase::Finalizing | Phase::Over(Ok(_)) =>
            m.talk.calls.len() == 0 && judged == said,
        Phase::Decide(call) => judged.push(call) + m.talk.calls == said,
        Phase::Over(Err(_)) => m.talk.calls.len() > 0 && judged + m.talk.calls.skip(1) == said,
        Phase::Calls => m.talk.calls.len() > 0 && judged + m.talk.calls == said,
        _ => judged + m.talk.calls == said,
    }
}

proof fn lemma_more_judged(from: World, w: World, judgement: Judgement)
    requires
        from.past.judged.is_prefix_of(w.past.judged),
    ensures
        judged_calls(w.past.judged.push(judgement).skip(from.past.judged.len() as int))
            == judged_calls(w.past.judged.skip(from.past.judged.len() as int)).push(judgement.call),
        from.past.judged.is_prefix_of(w.past.judged.push(judgement)),
{
    let n = from.past.judged.len() as int;
    assert(judged_calls(w.past.judged.push(judgement).skip(n)) =~= judged_calls(
        w.past.judged.skip(n),
    ).push(judgement.call));
    assert(from.past.judged =~= w.past.judged.push(judgement).subrange(0, n)) by {
        assert(from.past.judged =~= w.past.judged.subrange(0, n));
    }
}

proof fn lemma_calls_step(from: World, w: World, s: Step)
    requires
        calls_kept(from, w),
    ensures
        calls_kept(from, trace::advance(w, s)),
{
    let m = w.machine;
    let to = trace::advance(w, s);
    let judged = judged_calls(w.past.judged.skip(from.past.judged.len() as int));
    let none = Seq::<ToolCallView>::empty();
    reveal(trace::step);
    match (m.phase, s) {
        (Phase::Next, Step::Looked(_)) => {
            if m.talk.calls.len() == 0 {
                assert(m.talk.calls =~= none);
                assert(judged + none =~= judged);
            }
        },
        (Phase::Ask(request, final_turn), Step::Asked(turn)) => {
            lemma_more_turns(from, w, turn);
            lemma_accepted(
                TurnProgress {
                    continuation: m.talk,
                    turn: executor::silent(final_turn),
                    told: Seq::empty(),
                },
                turn.said,
            );
        },
        (_, Step::Asked(turn)) => {
            lemma_more_turns(from, w, turn);
        },
        (Phase::Heard(turn), Step::Looked(_)) => {
            if turn.calls.len() == 0 {
                assert(turn.calls =~= none);
                assert(judged + none =~= judged);
            }
        },
        (Phase::Calls, Step::Looked(_)) => {
            assert(judged.push(m.talk.calls[0]) + m.talk.calls.skip(1) =~= judged + m.talk.calls);
        },
        (Phase::Decide(call), Step::Decided(named, decision)) => {
            lemma_more_judged(
                from,
                w,
                Judgement { run_id: m.run.id, call: named, decision },
            );
            assert((seq![call] + m.talk.calls).skip(1) =~= m.talk.calls);
        },
        (_, Step::Decided(named, decision)) => {
            lemma_more_judged(
                from,
                w,
                Judgement { run_id: m.run.id, call: named, decision },
            );
        },
        _ => {},
    }
}

proof fn lemma_calls_after(from: World, steps: Seq<Step>)
    requires
        from.machine.phase is Next,
        from.machine.talk.calls.len() == 0,
        !from.machine.approved,
    ensures
        calls_kept(from, trace::after(from, steps)),
    decreases steps.len(),
{
    if steps.len() == 0 {
        assert(turns_since(from, from) =~= Seq::<Exchange>::empty());
        assert(from.past.asked =~= from.past.asked.subrange(0, from.past.asked.len() as int));
        assert(from.past.judged =~= from.past.judged.subrange(0, from.past.judged.len() as int));
        assert(judged_calls(from.past.judged.skip(from.past.judged.len() as int))
            + from.machine.talk.calls =~= Seq::<ToolCallView>::empty());
    } else {
        lemma_calls_after(from, steps.drop_last());
        lemma_calls_step(from, trace::after(from, steps.drop_last()), steps.last());
    }
}

/// Every call that the model makes is put to the policy, in the order in which it was made: by the
/// time of the answer all of them; and where one waits for the user, all up to that one, with the
/// others still to be handled behind it.
pub proof fn law_calls_are_handled_in_order<P: ToolPolicy>(from: World, to: World)
    requires
        trace::leads::<P>(from, to),
        from.machine.phase is Next,
        from.machine.talk.calls.len() == 0,
        !from.machine.approved,
    ensures
        ({
            let said = calls_of(turns_since(from, to));
            let judged = judged_calls(to.past.judged.skip(from.past.judged.len() as int));
            match to.machine.phase {
                Phase::Over(Ok(_)) => judged == said,
                Phase::Over(Err(ErrorView::ApprovalRequired(_))) => judged
                    + to.machine.talk.calls.skip(1) == said,
                _ => true,
            }
        }),
{
    reveal(trace::leads);
    let steps = choose|steps: Seq<Step>|
        trace::all_learnt::<P>(from, steps) && to == #[trigger] trace::after(from, steps);
    lemma_calls_after(from, steps);
}

/// The calls that a policy allowed, in their order.
pub open spec fn allowed_calls(judged: Seq<Judgement>) -> Seq<ToolCallView>
    decreases judged.len(),
{
    if judged.len() == 0 {
        Seq::empty()
    } else if judged.last().decision is Allow {
        allowed_calls(judged.drop_last()).push(judged.last().call)
    } else {
        allowed_calls(judged.drop_last())
    }
}

/// The calls that were run, in their order.
pub open spec fn ran_calls(ran: Seq<(ToolCallView, GivenView)>) -> Seq<ToolCallView> {
    ran.map_values(|entry: (ToolCallView, GivenView)| entry.0)
}

spec fn allowed_kept(from: World, w: World) -> bool {
    let m = w.machine;
    let allowed = allowed_calls(w.past.judged.skip(from.past.judged.len() as int));
    let ran = ran_calls(w.past.ran.skip(from.past.ran.len() as int));
    &&& from.past.judged.is_prefix_of(w.past.judged)
    &&& from.past.ran.is_prefix_of(w.past.ran)
    &&& in_order(m) ==> !m.approved
    &&& in_order(m) ==> match m.phase {
        Phase::Run(call) => ran.push(call) == allowed,
        _ => ran == allowed,
    }
}

proof fn lemma_allowed_step(from: World, w: World, s: Step)
    requires
        allowed_kept(from, w),
    ensures
        allowed_kept(from, trace::advance(w, s)),
{
    let m = w.machine;
    reveal(trace::step);
    match s {
        Step::Decided(call, decision) => {
            let judgement = Judgement { run_id: m.run.id, call, decision };
            let n = from.past.judged.len() as int;
            lemma_more_judged(from, w, judgement);
            assert(w.past.judged.push(judgement).skip(n) =~= w.past.judged.skip(n).push(judgement));
            assert(w.past.judged.skip(n).push(judgement).drop_last() =~= w.past.judged.skip(n));
        },
        Step::Ran(call, given) => {
            let n = from.past.ran.len() as int;
            assert(ran_calls(w.past.ran.push((call, given)).skip(n)) =~= ran_calls(
                w.past.ran.skip(n),
            ).push(call));
            assert(from.past.ran =~= w.past.ran.push((call, given)).subrange(0, n)) by {
                assert(from.past.ran =~= w.past.ran.subrange(0, n));
            }
        },
        _ => {},
    }
}

proof fn lemma_allowed_after(from: World, steps: Seq<Step>)
    requires
        from.machine.phase is Next,
        !from.machine.approved,
    ensures
        allowed_kept(from, trace::after(from, steps)),
    decreases steps.len(),
{
    if steps.len() == 0 {
        assert(from.past.ran =~= from.past.ran.subrange(0, from.past.ran.len() as int));
        assert(from.past.judged =~= from.past.judged.subrange(0, from.past.judged.len() as int));
        assert(from.past.judged.skip(from.past.judged.len() as int) =~= Seq::<Judgement>::empty());
        assert(ran_calls(from.past.ran.skip(from.past.ran.len() as int))
            =~= Seq::<ToolCallView>::empty());
    } else {
        lemma_allowed_after(from, steps.drop_last());
        lemma_allowed_step(from, trace::after(from, steps.drop_last()), steps.last());
    }
}

/// Exactly the calls that the policy allows are run, in their order.
pub proof fn law_allowed_calls_are_run<P: ToolPolicy>(from: World, to: World)
    requires
        trace::leads::<P>(from, to),
        from.machine.phase is Next,
        !from.machine.approved,
        in_order(to.machine),
        to.machine.phase is Over,
    ensures
        ran_calls(to.past.ran.skip(from.past.ran.len() as int)) == allowed_calls(
            to.past.judged.skip(from.past.judged.len() as int),
        ),
{
    reveal(trace::leads);
    let steps = choose|steps: Seq<Step>|
        trace::all_learnt::<P>(from, steps) && to == #[trigger] trace::after(from, steps);
    lemma_allowed_after(from, steps);
}

/// Whether a run that is over by its budget has used up what it is told of.
pub open spec fn used_up(m: Machine) -> bool {
    match m.phase {
        Phase::Over(Err(ErrorView::BudgetExceeded(error))) => match error.resource {
            BudgetResource::ProviderTurns => {
                &&& error.limit == m.run.budget.max_provider_turns
                &&& m.run.usage.provider_turns >= m.run.budget.max_provider_turns
            },
            BudgetResource::ToolCalls => {
                &&& error.limit == m.run.budget.max_tool_calls
                &&& m.run.usage.tool_calls >= m.run.budget.max_tool_calls
            },
        },
        _ => true,
    }
}

proof fn lemma_used_up(from: World, steps: Seq<Step>)
    requires
        from.machine.phase is Next,
    ensures
        used_up(trace::after(from, steps).machine),
    decreases steps.len(),
{
    if steps.len() > 0 {
        lemma_used_up(from, steps.drop_last());
        reveal(trace::step);
    }
}

/// No run ends by its budget before it has used that up.
pub proof fn law_budgets_can_be_used_up<P: ToolPolicy>(from: World, to: World)
    requires
        trace::leads::<P>(from, to),
        from.machine.phase is Next,
    ensures
        used_up(to.machine),
{
    reveal(trace::leads);
    let steps = choose|steps: Seq<Step>|
        trace::all_learnt::<P>(from, steps) && to == #[trigger] trace::after(from, steps);
    lemma_used_up(from, steps);
}

/// A text is cut to a number of characters, with an ellipsis where anything is cut away.
pub proof fn law_long_texts_are_cut(s: Seq<char>, limit: nat)
    ensures
        s.len() <= limit ==> run::bounded(s, limit) == s,
        s.len() > limit ==> {
            &&& run::bounded(s, limit).len() == limit + 1
            &&& run::bounded(s, limit).drop_last() == s.take(limit as int)
            &&& run::bounded(s, limit).last() == '…'
        },
{
    assert(s.take(limit as int).push('…').drop_last() =~= s.take(limit as int)) by {
        if s.len() > limit {
            assert(s.take(limit as int).len() == limit);
        }
    }
}

/// What the user is asked to approve is the call as it was made: its tool, its arguments and the
/// reason of the policy, each whole where it is not too long.
pub proof fn law_approvals_tell_what_is_asked(
    run_id: AgentRunId,
    id: ApprovalId,
    call: ToolCallView,
    reason: Seq<char>,
)
    ensures
        ({
            let asked = run::approval_of(run_id, id, call, reason);
            let arguments = json::json_text(call.arguments);
            &&& asked.run_id == run_id
            &&& asked.approval_id == id
            &&& asked.tool_name == call.name
            &&& arguments.len() <= 4096 ==> asked.arguments == arguments
            &&& arguments.len() > 4096 ==> asked.arguments == arguments.take(4096).push('…')
            &&& reason.len() <= 4096 ==> asked.reason == reason
            &&& reason.len() > 4096 ==> asked.reason == reason.take(4096).push('…')
        }),
{
}

/// What holds of a run whose first call the user approved: no tool was run yet, and that call is still
/// the first; or it was the first that was run.
spec fn approved_first(from: World, w: World) -> bool {
    let call = from.machine.talk.calls[0];
    let n = from.past.ran.len();
    &&& from.past.ran.is_prefix_of(w.past.ran)
    &&& in_order(w.machine) ==> if w.past.ran.len() > n {
        w.past.ran[n as int].0 == call
    } else {
        match w.machine.phase {
            Phase::Next | Phase::Calls => w.machine.approved && w.machine.talk.calls
                == from.machine.talk.calls && w.past.judged == from.past.judged,
            Phase::Run(named) => named == call && w.past.judged == from.past.judged,
            _ => false,
        }
    }
}

proof fn lemma_approved_step(from: World, w: World, s: Step)
    requires
        approved_first(from, w),
        from.machine.talk.calls.len() > 0,
    ensures
        approved_first(from, trace::advance(w, s)),
{
    reveal(trace::step);
    match s {
        Step::Ran(call, given) => {
            let n = from.past.ran.len() as int;
            let after = w.past.ran.push((call, given));
            assert(from.past.ran =~= after.subrange(0, n)) by {
                assert(from.past.ran =~= w.past.ran.subrange(0, n));
            }
            if w.past.ran.len() > n {
                assert(after[n] == w.past.ran[n]);
            }
        },
        _ => {},
    }
}

proof fn lemma_approved_after(from: World, steps: Seq<Step>)
    requires
        from.machine.phase is Next,
        from.machine.approved,
        from.machine.talk.calls.len() > 0,
    ensures
        approved_first(from, trace::after(from, steps)),
    decreases steps.len(),
{
    if steps.len() == 0 {
        assert(from.past.ran =~= from.past.ran.subrange(0, from.past.ran.len() as int));
    } else {
        lemma_approved_after(from, steps.drop_last());
        lemma_approved_step(from, trace::after(from, steps.drop_last()), steps.last());
    }
}

/// A call that the user approved is run before anything else: where a run goes on with one and comes
/// to its answer, or to another call that needs the user, that call was the first that was run.
pub proof fn law_approved_calls_are_run<P: ToolPolicy>(from: World, to: World)
    requires
        trace::leads::<P>(from, to),
        from.machine.phase is Next,
        from.machine.approved,
        from.machine.talk.calls.len() > 0,
        in_order(to.machine),
        to.machine.phase is Over,
    ensures
        from.past.ran.len() < to.past.ran.len(),
        to.past.ran[from.past.ran.len() as int].0 == from.machine.talk.calls[0],
{
    reveal(trace::leads);
    let steps = choose|steps: Seq<Step>|
        trace::all_learnt::<P>(from, steps) && to == #[trigger] trace::after(from, steps);
    lemma_approved_after(from, steps);
}

/// A call that the user denied is not handled any more, and the model is told so; the calls behind it
/// stay.
pub proof fn law_denials_are_told(talk: ContinuationView, call: ToolCallView)
    requires
        talk.calls.len() > 0,
    ensures
        ({
            let after = executor::denied(talk, call);
            &&& after.calls == talk.calls.skip(1)
            &&& after.request.messages == talk.request.messages.push(
                told(call, "tool execution denied by approval decision"@),
            )
            &&& after.content == talk.content
            &&& after.thinking == talk.thinking
        }),
{
}

/// Whether a text stands at an index of another, in whatever case its letters are.
pub open spec fn stands_in_any_case(s: Seq<char>, wanted: Seq<char>, at: int) -> bool {
    &&& 0 <= at <= s.len() - wanted.len()
    &&& forall|i: int|
        0 <= i < wanted.len() ==> text::ascii_lower(s[at + i]) == #[trigger] wanted[i]
}

/// Whether a text holds another, in whatever case its letters are.
pub open spec fn holds_in_any_case(s: Seq<char>, wanted: Seq<char>) -> bool {
    exists|at: int| stands_in_any_case(s, wanted, at)
}

proof fn lemma_any_case(s: Seq<char>, wanted: Seq<char>)
    ensures
        holds_in_any_case(s, wanted) ==> text::contains_text(text::ascii_lowercase(s), wanted),
{
    let lowered = text::ascii_lowercase(s);
    if holds_in_any_case(s, wanted) {
        let k = choose|at: int| stands_in_any_case(s, wanted, at);
        assert forall|i: int| 0 <= i < wanted.len() implies lowered.subrange(
            k,
            k + wanted.len(),
        )[i] == wanted[i] by {
            assert(text::ascii_lower(s[k + i]) == wanted[i]);
        }
        assert(lowered.subrange(k, k + wanted.len()) =~= wanted);
        assert(text::occurs_at(lowered, wanted, k));
    }
}

/// A final turn that calls a tool, or writes as if it did in whatever case, breaks the rules; any
/// other turn does not.
pub proof fn law_final_turns_call_no_tools(turn: TurnView)
    ensures
        !turn.finalization ==> executor::protocol_error(turn) is None,
        turn.finalization && turn.calls.len() > 0 ==> executor::protocol_error(turn) is Some,
        turn.finalization && (holds_in_any_case(turn.final_content, "<tool_call"@)
            || holds_in_any_case(turn.final_content, "</tool_call"@) || holds_in_any_case(
            turn.final_content,
            "<function="@,
        ) || holds_in_any_case(turn.final_content, "</function>"@)) ==> executor::protocol_error(
            turn,
        ) is Some,
        turn.calls.len() == 0 && !turn.final_content.contains('<') ==> executor::protocol_error(
            turn,
        ) is None,
{
    let content = turn.final_content;
    lemma_any_case(content, "<tool_call"@);
    lemma_any_case(content, "</tool_call"@);
    lemma_any_case(content, "<function="@);
    lemma_any_case(content, "</function>"@);
    if !content.contains('<') {
        reveal_strlit("<tool_call");
        reveal_strlit("</tool_call");
        reveal_strlit("<function=");
        reveal_strlit("</function>");
        lemma_no_angle(content, "<tool_call"@);
        lemma_no_angle(content, "</tool_call"@);
        lemma_no_angle(content, "<function="@);
        lemma_no_angle(content, "</function>"@);
    }
}

proof fn lemma_no_angle(s: Seq<char>, wanted: Seq<char>)
    requires
        wanted.len() > 0,
        wanted[0] == '<',
        !s.contains('<'),
    ensures
        !text::contains_text(text::ascii_lowercase(s), wanted),
{
    let lowered = text::ascii_lowercase(s);
    if text::contains_text(lowered, wanted) {
        let k = choose|k: int| text::occurs_at(lowered, wanted, k);
        assert(lowered.subrange(k, k + wanted.len())[0] == lowered[k]);
        assert(lowered[k] == text::ascii_lower(s[k]));
        assert(s[k] == '<');
    }
}

} // verus!
