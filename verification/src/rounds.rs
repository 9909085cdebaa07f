//! What a model is asked in each round of a chat, and what becomes of what it says.

use vstd::prelude::*;
use vstd::string::*;

use crate::answering;
use crate::chat;
use crate::chat::Chat;
use crate::chat::Done;
use crate::chat::Phase;
use crate::chat::Step;
use crate::executor::Exchange;
use crate::json;
use crate::orchestration;
use crate::orchestration::RoundTripErrorView;
use crate::orchestration::RoundTripView;
use crate::provider::ChatRole;
use crate::provider::MessageView;
use crate::provider::RequestView;
use crate::provider::StreamEventView;
use crate::provider::ToolCallView;
use crate::run::Cancellation;
use crate::tools::Capabilities;
use crate::tools::ToolRegistry;
use crate::tools::ToolResult;

verus! {

/// The turns that the model had since some point.
pub open spec fn turns_since(from: Chat, done: Done) -> Seq<Exchange> {
    done.asked.skip(from.done.asked.len() as int)
}

/// The calls that were made since some point.
pub open spec fn calls_since(from: Chat, done: Done) -> Seq<ToolCallView> {
    done.ran.skip(from.done.ran.len() as int).map_values(
        |entry: (ToolCallView, ToolResult)| entry.0,
    )
}

/// The message by which a model is told what came of a call.
pub open spec fn told(call: ToolCallView, result: ToolResult) -> MessageView {
    MessageView {
        role: ChatRole::Tool,
        content: json::json_text(orchestration::result_json(result, call.name)),
        reasoning: None,
        tool_call_id: call.id,
        tool_calls: Seq::empty(),
    }
}

/// Whether a request is what is due in a round of a chat: the whole conversation as it was begun, and
/// the same tools; none once four rounds are over.
pub open spec fn due(from: Chat, k: int, request: RequestView) -> bool {
    let begun = from.trip.request;
    &&& request.model == begun.model
    &&& request.think == begun.think
    &&& begun.messages.is_prefix_of(request.messages)
    &&& request.tools == (if k - from.done.asked.len() < 4 {
        begun.tools
    } else {
        None
    })
}

spec fn kept(from: Chat, c: Chat) -> bool {
    let begun = from.trip.request;
    let turns = turns_since(from, c.done);
    let ran = calls_since(from, c.done);
    let said = answering::calls_of(turns);
    let messages = c.trip.request.messages;
    &&& from.done.asked.is_prefix_of(c.done.asked)
    &&& from.done.ran.is_prefix_of(c.done.ran)
    &&& !(c.phase is Astray) ==> {
        &&& c.trip.request == (RequestView { messages, ..begun })
        &&& begun.messages.is_prefix_of(messages)
        &&& forall|k: int|
            from.done.asked.len() <= k < c.done.asked.len() ==> due(
                from,
                k,
                (#[trigger] c.done.asked[k]).request,
            )
        &&& forall|k: int|
            from.done.ran.len() <= k < c.done.ran.len() ==> messages.contains(
                told((#[trigger] c.done.ran[k]).0, c.done.ran[k].1),
            )
        &&& match c.phase {
            Phase::Begin | Phase::Next => turns.len() == c.trip.round && ran == said
                && c.trip.total_calls == said.len(),
            Phase::Ask(request) => turns.len() == c.trip.round && ran == said && due(
                from,
                c.done.asked.len() as int,
                request,
            ) && c.trip.total_calls == said.len(),
            Phase::Heard(heard) => turns.len() == c.trip.round + 1 && turns.last().said == heard
                && turns.last().error is None && ran + answering::calls_said(heard) == said
                && c.trip.total_calls + answering::calls_said(heard).len() == said.len(),
            Phase::Calls(calls) => turns.len() == c.trip.round + 1 && ran + calls == said
                && c.trip.total_calls == said.len(),
            Phase::Run(call, rest) => turns.len() == c.trip.round + 1 && ran.push(call) + rest
                == said && c.trip.total_calls == said.len(),
            Phase::Over(Ok(heard)) => turns.len() > 0 && turns.last().said == heard
                && turns.last().error is None && answering::calls_said(heard).len() == 0 && ran
                == said,
            Phase::Over(Err(RoundTripErrorView::ToolRoundLimit)) => turns.len() > 4
                && answering::calls_said(turns.last().said).len() > 0,
            Phase::Over(Err(RoundTripErrorView::ToolCallLimit)) => said.len() > 16,
            Phase::Over(Err(RoundTripErrorView::Provider(error))) => turns.len() > 0
                && turns.last().error == Some(error),
            _ => true,
        }
    }
}

proof fn lemma_calls_in(said: Seq<StreamEventView>)
    ensures
        orchestration::calls_in(said) == answering::calls_said(said),
    decreases said.len(),
{
    if said.len() > 0 {
        lemma_calls_in(said.drop_last());
    }
}

proof fn lemma_more_turns(from: Chat, c: Chat, turn: Exchange)
    requires
        from.done.asked.is_prefix_of(c.done.asked),
    ensures
        turns_since(from, Done { asked: c.done.asked.push(turn), ..c.done }) == turns_since(
            from,
            c.done,
        ).push(turn),
        turns_since(from, c.done).push(turn).drop_last() == turns_since(from, c.done),
        from.done.asked.is_prefix_of(c.done.asked.push(turn)),
{
    let n = from.done.asked.len() as int;
    assert(c.done.asked.push(turn).skip(n) =~= turns_since(from, c.done).push(turn));
    assert(turns_since(from, c.done).push(turn).drop_last() =~= turns_since(from, c.done));
    assert(from.done.asked =~= c.done.asked.push(turn).subrange(0, n)) by {
        assert(from.done.asked =~= c.done.asked.subrange(0, n));
    }
}

proof fn lemma_more_calls(from: Chat, c: Chat, call: ToolCallView, result: ToolResult)
    requires
        from.done.ran.is_prefix_of(c.done.ran),
    ensures
        calls_since(from, Done { ran: c.done.ran.push((call, result)), ..c.done }) == calls_since(
            from,
            c.done,
        ).push(call),
        from.done.ran.is_prefix_of(c.done.ran.push((call, result))),
{
    let n = from.done.ran.len() as int;
    assert(calls_since(from, Done { ran: c.done.ran.push((call, result)), ..c.done })
        =~= calls_since(from, c.done).push(call));
    assert(from.done.ran =~= c.done.ran.push((call, result)).subrange(0, n)) by {
        assert(from.done.ran =~= c.done.ran.subrange(0, n));
    }
}

proof fn lemma_grown(begun: Seq<MessageView>, now: Seq<MessageView>, message: MessageView)
    requires
        begun.is_prefix_of(now),
    ensures
        begun.is_prefix_of(now.push(message)),
        now.push(message).contains(message),
        forall|m: MessageView| now.contains(m) ==> #[trigger] now.push(message).contains(m),
{
    assert(begun =~= now.push(message).subrange(0, begun.len() as int)) by {
        assert(begun =~= now.subrange(0, begun.len() as int));
    }
    assert(now.push(message)[now.len() as int] == message);
    assert forall|m: MessageView| now.contains(m) implies #[trigger] now.push(message).contains(
        m,
    ) by {
        let i = choose|i: int| 0 <= i < now.len() && now[i] == m;
        assert(now.push(message)[i] == m);
    }
}

proof fn lemma_kept_looked(from: Chat, c: Chat, tools: bool, asked: bool)
    requires
        kept(from, c),
    ensures
        kept(from, chat::step(c, tools, Step::Looked(asked))),
{
    let to = chat::step(c, tools, Step::Looked(asked));
    let turns = turns_since(from, c.done);
    let ran = calls_since(from, c.done);
    assert(turns_since(from, to.done) == turns);
    assert(calls_since(from, to.done) == ran);
    if !(to.phase is Astray) && !asked {
        match c.phase {
            Phase::Heard(said) => {
                lemma_calls_in(said);
                let calls = answering::calls_said(said);
                lemma_grown(
                    from.trip.request.messages,
                    c.trip.request.messages,
                    orchestration::calling_message(calls),
                );
                if calls.len() == 0 {
                    assert(ran + calls =~= ran);
                }
            },
            Phase::Calls(calls) => {
                if calls.len() > 0 {
                    assert(ran.push(calls[0]) + calls.skip(1) =~= ran + calls);
                } else {
                    assert(ran + calls =~= ran);
                }
            },
            _ => {},
        }
    }
}

proof fn lemma_kept_asked(from: Chat, c: Chat, tools: bool, turn: Exchange)
    requires
        kept(from, c),
    ensures
        kept(from, chat::step(c, tools, Step::Asked(turn))),
{
    let to = chat::step(c, tools, Step::Asked(turn));
    lemma_more_turns(from, c, turn);
    let turns = turns_since(from, to.done);
    assert(turns == turns_since(from, c.done).push(turn));
    assert(calls_since(from, to.done) == calls_since(from, c.done));
    if !(to.phase is Astray) {
        assert forall|k: int| from.done.asked.len() <= k < to.done.asked.len() implies due(
            from,
            k,
            (#[trigger] to.done.asked[k]).request,
        ) by {
            if k < c.done.asked.len() {
                assert(to.done.asked[k] == c.done.asked[k]);
            }
        }
        assert(answering::calls_of(turns) == answering::calls_of(turns_since(from, c.done))
            + answering::calls_said(turn.said));
    }
}

proof fn lemma_kept_ran(from: Chat, c: Chat, tools: bool, call: ToolCallView, result: ToolResult)
    requires
        kept(from, c),
    ensures
        kept(from, chat::step(c, tools, Step::Ran(call, result))),
{
    let to = chat::step(c, tools, Step::Ran(call, result));
    lemma_more_calls(from, c, call, result);
    assert(turns_since(from, to.done) == turns_since(from, c.done));
    if !(to.phase is Astray) {
        let before = c.trip.request.messages;
        let message = told(call, result);
        lemma_grown(from.trip.request.messages, before, message);
        assert(to.trip.request.messages == before.push(message));
        assert forall|k: int| from.done.ran.len() <= k < to.done.ran.len() implies before.push(
            message,
        ).contains(told((#[trigger] to.done.ran[k]).0, to.done.ran[k].1)) by {
            if k < c.done.ran.len() {
                assert(to.done.ran[k] == c.done.ran[k]);
                assert(before.contains(told(c.done.ran[k].0, c.done.ran[k].1)));
            }
        }
    }
}

proof fn lemma_kept_after(from: Chat, tools: bool, steps: Seq<Step>)
    requires
        from.phase is Begin,
        from.trip.round == 0,
        from.trip.total_calls == 0,
    ensures
        kept(from, chat::after(from, tools, steps)),
    decreases steps.len(),
{
    if steps.len() == 0 {
        assert(from.done.asked =~= from.done.asked.subrange(0, from.done.asked.len() as int));
        assert(from.done.ran =~= from.done.ran.subrange(0, from.done.ran.len() as int));
        let messages = from.trip.request.messages;
        assert(messages =~= messages.subrange(0, messages.len() as int));
        assert(turns_since(from, from.done) =~= Seq::<Exchange>::empty());
        assert(calls_since(from, from.done) =~= Seq::<ToolCallView>::empty());
    } else {
        lemma_kept_after(from, tools, steps.drop_last());
        let c = chat::after(from, tools, steps.drop_last());
        match steps.last() {
            Step::Looked(asked) => lemma_kept_looked(from, c, tools, asked),
            Step::Asked(turn) => lemma_kept_asked(from, c, tools, turn),
            Step::Ran(call, result) => lemma_kept_ran(from, c, tools, call, result),
        }
    }
}

/// A chat answers with what the model said in its last turn, in which it called no tool; every call
/// that it made before was run, in its order. In each of its turns the model is shown the conversation
/// as it was begun, and offered the same tools, but for the turn behind four rounds, which has none. A
/// chat fails for its rounds only behind four of them, for its calls only with more than sixteen, and
/// for its provider only with the error of the last turn.
pub proof fn law_chats_answer_what_was_said<C: Capabilities>(
    registry: Option<&ToolRegistry<C>>,
    cancellation: &Cancellation,
    from: Chat,
    done: Done,
    outcome: Result<Seq<StreamEventView>, RoundTripErrorView>,
)
    requires
        chat::comes_to_end(registry, cancellation, from, done, outcome),
        from.phase is Begin,
        from.trip.round == 0,
        from.trip.total_calls == 0,
    ensures
        ({
            let turns = turns_since(from, done);
            let said = answering::calls_of(turns);
            &&& forall|k: int|
                from.done.asked.len() <= k < done.asked.len() ==> due(
                    from,
                    k,
                    (#[trigger] done.asked[k]).request,
                )
            &&& match outcome {
                Ok(answer) => {
                    &&& turns.len() > 0
                    &&& turns.last().said == answer
                    &&& answering::calls_said(answer).len() == 0
                    &&& calls_since(from, done) == said
                },
                Err(RoundTripErrorView::ToolRoundLimit) => turns.len() > 4
                    && answering::calls_said(turns.last().said).len() > 0,
                Err(RoundTripErrorView::ToolCallLimit) => said.len() > 16,
                Err(RoundTripErrorView::Provider(error)) => turns.len() > 0 && turns.last().error
                    == Some(error),
                _ => true,
            }
        }),
{
    reveal(chat::leads);
    let trip = choose|trip: RoundTripView|
        chat::leads(
            registry,
            cancellation,
            from,
            #[trigger] chat::over(trip, outcome, *cancellation, done),
        );
    let to = chat::over(trip, outcome, *cancellation, done);
    let steps = choose|steps: Seq<Step>|
        chat::all_learnt(registry, cancellation, steps) && to == #[trigger] chat::after(
            from,
            registry is Some,
            steps,
        );
    lemma_kept_after(from, registry is Some, steps);
}

/// What came of every call is told to the model of a chat: whenever it is asked, the conversation
/// holds the result of each call that was made, under the id of the call.
pub proof fn law_what_came_of_calls_is_told<C: Capabilities>(
    registry: Option<&ToolRegistry<C>>,
    cancellation: &Cancellation,
    from: Chat,
    to: Chat,
    request: RequestView,
    k: int,
)
    requires
        chat::leads(registry, cancellation, from, to),
        from.phase is Begin,
        from.trip.round == 0,
        from.trip.total_calls == 0,
        to.phase == Phase::Ask(request),
        from.done.ran.len() <= k < to.done.ran.len(),
    ensures
        request.messages.contains(told(to.done.ran[k].0, to.done.ran[k].1)),
        calls_since(from, to.done) == answering::calls_of(turns_since(from, to.done)),
{
    reveal(chat::leads);
    let steps = choose|steps: Seq<Step>|
        chat::all_learnt(registry, cancellation, steps) && to == #[trigger] chat::after(
            from,
            registry is Some,
            steps,
        );
    lemma_kept_after(from, registry is Some, steps);
    lemma_asks_conversation(from, registry is Some, steps);
}

proof fn lemma_asks_conversation(from: Chat, tools: bool, steps: Seq<Step>)
    requires
        from.phase is Begin,
    ensures
        match chat::after(from, tools, steps).phase {
            Phase::Ask(request) => request.messages == chat::after(
                from,
                tools,
                steps,
            ).trip.request.messages,
            _ => true,
        },
    decreases steps.len(),
{
    if steps.len() > 0 {
        lemma_asks_conversation(from, tools, steps.drop_last());
    }
}

} // verus!
