//! Where the reasoning that a model is shown again comes from.

use vstd::prelude::*;

use crate::executor;
use crate::executor::AgentExecutionError;
use crate::executor::AgentExecutionResult;
use crate::executor::ContinuationView;
use crate::executor::Exchange;
use crate::executor::ToolPolicy;
use crate::executor::TurnProgress;
use crate::progress;
use crate::provider::MessageView;
use crate::provider::RequestView;
use crate::provider::StreamEventView;
use crate::run::EventView;
use crate::run::RunView;
use crate::trace;
use crate::trace::Machine;
use crate::trace::Past;
use crate::trace::Phase;
use crate::trace::Step;
use crate::trace::World;

verus! {

/// The reasoning that a model told in a turn.
pub open spec fn reasoning_in(said: Seq<StreamEventView>) -> Seq<char>
    decreases said.len(),
{
    if said.len() == 0 {
        Seq::empty()
    } else {
        reasoning_in(said.drop_last()) + match said.last() {
            StreamEventView::ReasoningDelta(delta) => delta,
            _ => Seq::empty(),
        }
    }
}

/// Whether a message has no reasoning, or one that some messages had, or one that was told in some
/// turns.
pub open spec fn own(before: Seq<MessageView>, turns: Seq<Exchange>, message: MessageView) -> bool {
    ||| message.reasoning is None
    ||| exists|k: int|
        0 <= k < before.len() && (#[trigger] before[k]).reasoning == message.reasoning
    ||| exists|k: int|
        0 <= k < turns.len() && message.reasoning == Some(
            reasoning_in((#[trigger] turns[k]).said),
        )
}

/// Whether this holds of all messages.
pub open spec fn all_own(
    before: Seq<MessageView>,
    turns: Seq<Exchange>,
    messages: Seq<MessageView>,
) -> bool {
    forall|k: int| 0 <= k < messages.len() ==> own(before, turns, #[trigger] messages[k])
}

/// The turns since some point.
pub open spec fn turns_since(past: Past, now: Past) -> Seq<Exchange> {
    now.asked.skip(past.asked.len() as int)
}

proof fn lemma_heard_reasoning(start: TurnProgress, said: Seq<StreamEventView>)
    ensures
        executor::accept_all(start, said).turn.reasoning == start.turn.reasoning + reasoning_in(
            said,
        ),
        executor::accept_all(start, said).continuation.request == start.continuation.request,
    decreases said.len(),
{
    if said.len() == 0 {
        assert(start.turn.reasoning + Seq::<char>::empty() =~= start.turn.reasoning);
    } else {
        lemma_heard_reasoning(start, said.drop_last());
        assert(executor::accept_all(start, said).turn.reasoning =~= start.turn.reasoning
            + reasoning_in(said));
    }
}

/// What a step does to the messages of a conversation.
spec fn moved(m: Machine, s: Step, to: Machine) -> bool {
    let before = m.talk.request.messages;
    let after = to.talk.request.messages;
    &&& after == before || {
        &&& after.len() > 0
        &&& after == before.push(after.last())
        &&& after.last().reasoning is None || (m.phase is Heard && after.last().reasoning == Some(
            m.phase->Heard_0.reasoning,
        ))
    }
    &&& to.phase is Ask ==> {
        ||| to.phase->Ask_0 == m.talk.request
        ||| to.phase->Ask_0 == executor::final_request(m.talk.request)
    }
    &&& s is Asked ==> m.phase is Ask && s->Asked_0.request == m.phase->Ask_0
    &&& to.phase is Heard ==> s is Asked && to.phase->Heard_0.reasoning == reasoning_in(
        s->Asked_0.said,
    )
    &&& match to.phase {
        Phase::Over(Ok(answer)) => answer.messages == before,
        _ => true,
    }
}

proof fn lemma_moved(m: Machine, s: Step)
    ensures
        !(trace::step(m, s).phase is Astray) ==> !(m.phase is Astray) && moved(
            m,
            s,
            trace::step(m, s),
        ),
{
    reveal(trace::step);
    let to = trace::step(m, s);
    match (m.phase, s) {
        (Phase::Ask(request, final_turn), Step::Asked(turn)) => {
            let start = TurnProgress {
                continuation: m.talk,
                turn: executor::silent(final_turn),
                told: Seq::empty(),
            };
            lemma_heard_reasoning(start, turn.said);
            assert(Seq::<char>::empty() + reasoning_in(turn.said) =~= reasoning_in(turn.said));
        },
        _ => {},
    }
}

spec fn kept(from: World, w: World) -> bool {
    w.machine.phase is Astray || {
        let before = from.machine.talk.request.messages;
        let turns = turns_since(from.past, w.past);
        &&& from.past.asked.is_prefix_of(w.past.asked)
        &&& all_own(before, turns, w.machine.talk.request.messages)
        &&& forall|k: int|
            0 <= k < turns.len() ==> all_own(before, turns, (#[trigger] turns[k]).request.messages)
        &&& match w.machine.phase {
            Phase::Ask(request, _) => all_own(before, turns, request.messages),
            Phase::Heard(turn) => turns.len() > 0 && turn.reasoning == reasoning_in(
                turns.last().said,
            ),
            Phase::Over(Ok(answer)) => all_own(before, turns, answer.messages),
            _ => true,
        }
    }
}

proof fn lemma_own_grows(before: Seq<MessageView>, turns: Seq<Exchange>, turn: Exchange, messages: Seq<
    MessageView,
>)
    requires
        all_own(before, turns, messages),
    ensures
        all_own(before, turns.push(turn), messages),
{
    let more = turns.push(turn);
    assert forall|i: int| 0 <= i < messages.len() implies own(before, more, #[trigger] messages[i]) by {
        let message = messages[i];
        assert(own(before, turns, message));
        if exists|k: int|
            0 <= k < turns.len() && message.reasoning == Some(
                reasoning_in((#[trigger] turns[k]).said),
            ) {
            let k = choose|k: int|
                0 <= k < turns.len() && message.reasoning == Some(
                    reasoning_in((#[trigger] turns[k]).said),
                );
            assert(more[k] == turns[k]);
        }
    }
}

proof fn lemma_own_final(before: Seq<MessageView>, turns: Seq<Exchange>, request: RequestView)
    requires
        all_own(before, turns, request.messages),
    ensures
        all_own(before, turns, executor::final_request(request).messages),
{
    let keep = |m: MessageView| executor::kept_for_final(m);
    let chosen = request.messages.filter(keep);
    let last = executor::final_request(request).messages;
    assert forall|i: int| 0 <= i < last.len() implies own(before, turns, #[trigger] last[i]) by {
        if i < chosen.len() {
            assert(last[i] == chosen[i]);
            request.messages.lemma_filter_contains_rev(keep, chosen[i]);
            let k = choose|k: int|
                0 <= k < request.messages.len() && request.messages[k] == chosen[i];
            assert(own(before, turns, request.messages[k]));
        }
    }
}

proof fn lemma_kept_step(from: World, w: World, s: Step)
    requires
        kept(from, w),
    ensures
        kept(from, trace::advance(w, s)),
{
    let to = trace::advance(w, s);
    lemma_moved(w.machine, s);
    if !(to.machine.phase is Astray) {
        let before = from.machine.talk.request.messages;
        let turns = turns_since(from.past, w.past);
        let more = turns_since(from.past, to.past);
        let messages = w.machine.talk.request.messages;
        match s {
            Step::Asked(turn) => {
                assert(more =~= turns.push(turn));
                assert(from.past.asked.is_prefix_of(to.past.asked)) by {
                    assert(from.past.asked =~= w.past.asked.subrange(
                        0,
                        from.past.asked.len() as int,
                    ));
                    assert(from.past.asked =~= to.past.asked.subrange(
                        0,
                        from.past.asked.len() as int,
                    ));
                }
                lemma_own_grows(before, turns, turn, messages);
                lemma_own_grows(before, turns, turn, turn.request.messages);
                assert forall|k: int| 0 <= k < more.len() implies all_own(
                    before,
                    more,
                    (#[trigger] more[k]).request.messages,
                ) by {
                    if k < turns.len() {
                        assert(more[k] == turns[k]);
                        lemma_own_grows(before, turns, turn, turns[k].request.messages);
                    }
                }
            },
            _ => {
                assert(more == turns);
            },
        }
        if to.machine.talk.request.messages != messages {
            let now = to.machine.talk.request.messages;
            assert forall|k: int| 0 <= k < now.len() implies own(before, more, #[trigger] now[k]) by {
                if k < messages.len() {
                    assert(now[k] == messages[k]);
                } else if !(now[k].reasoning is None) {
                    assert(turns[turns.len() - 1] == turns.last());
                    assert(own(before, turns, now[k]));
                }
            }
        }
        if to.machine.phase is Ask {
            lemma_own_final(before, more, w.machine.talk.request);
        }
    }
}

proof fn lemma_kept_after(from: World, steps: Seq<Step>)
    requires
        from.machine.phase is Next,
    ensures
        kept(from, trace::after(from, steps)),
    decreases steps.len(),
{
    if steps.len() == 0 {
        let before = from.machine.talk.request.messages;
        let turns = turns_since(from.past, from.past);
        assert(turns =~= Seq::<Exchange>::empty());
        assert(from.past.asked =~= from.past.asked.subrange(0, from.past.asked.len() as int));
        assert forall|k: int| 0 <= k < before.len() implies own(before, turns, #[trigger] before[k]) by {
        }
    } else {
        lemma_kept_after(from, steps.drop_last());
        lemma_kept_step(from, trace::after(from, steps.drop_last()), steps.last());
    }
}

/// All reasoning that a model is shown in a run, and all that its answer holds, was in the
/// conversation when the run went on, or was told by the model in the run itself.
pub proof fn law_reasoning_is_of_the_run<P: ToolPolicy>(from: World, to: World)
    requires
        trace::leads::<P>(from, to),
        from.machine.phase is Next,
        !(to.machine.phase is Astray),
    ensures
        ({
            let before = from.machine.talk.request.messages;
            let turns = turns_since(from.past, to.past);
            &&& from.past.asked.is_prefix_of(to.past.asked)
            &&& forall|k: int|
                0 <= k < turns.len() ==> all_own(
                    before,
                    turns,
                    (#[trigger] turns[k]).request.messages,
                )
            &&& match to.machine.phase {
                Phase::Over(Ok(answer)) => all_own(before, turns, answer.messages),
                _ => true,
            }
        }),
{
    reveal(trace::leads);
    let steps = choose|steps: Seq<Step>|
        trace::all_learnt::<P>(from, steps) && to == #[trigger] trace::after(from, steps);
    lemma_kept_after(from, steps);
}

/// Whether some messages have nothing of a reasoning.
pub open spec fn without(messages: Seq<MessageView>, reasoning: Seq<char>) -> bool {
    forall|k: int| 0 <= k < messages.len() ==> (#[trigger] messages[k]).reasoning != Some(reasoning)
}

/// No reasoning of an earlier run reaches a later one of the same executor: where the later run's
/// request does not hold it and the model does not tell it again, the model is never shown it in the
/// later run, and the answer of the later run does not hold it.
pub proof fn law_reasoning_stays_in_its_run<P: ToolPolicy>(
    earlier: int,
    run: RunView,
    request: RequestView,
    log: Seq<EventView>,
    past: Past,
    waiting: Option<ContinuationView>,
    run_after: RunView,
    log_after: Seq<EventView>,
    past_after: Past,
    waiting_after: Option<ContinuationView>,
    result: Result<AgentExecutionResult, AgentExecutionError>,
)
    requires
        executor::executed::<P>(
            run,
            request,
            log,
            past,
            waiting,
            run_after,
            log_after,
            past_after,
            waiting_after,
            result,
        ),
        0 <= earlier < past.asked.len(),
        without(request.messages, reasoning_in(past.asked[earlier].said)),
        forall|k: int|
            0 <= k < turns_since(past, past_after).len() ==> reasoning_in(
                (#[trigger] turns_since(past, past_after)[k]).said,
            ) != reasoning_in(past.asked[earlier].said),
    ensures
        forall|k: int|
            0 <= k < turns_since(past, past_after).len() ==> without(
                (#[trigger] turns_since(past, past_after)[k]).request.messages,
                reasoning_in(past.asked[earlier].said),
            ),
        result is Ok ==> without(
            result->Ok_0@.messages,
            reasoning_in(past.asked[earlier].said),
        ),
{
    let reasoning = reasoning_in(past.asked[earlier].said);
    let turns = turns_since(past, past_after);
    if run.state is Idle {
        let from = executor::started(run, request, log, past);
        let (talk, approved) = progress::reached::<P>(
            from,
            run_after,
            log_after,
            past_after,
            waiting_after,
            result,
        );
        law_reasoning_is_of_the_run::<P>(
            from,
            trace::at(
                run_after,
                talk,
                log_after,
                approved,
                Phase::Over(executor::outcome_view(result)),
                past_after,
            ),
        );
        assert forall|k: int| 0 <= k < turns.len() implies without(
            (#[trigger] turns[k]).request.messages,
            reasoning,
        ) by {
            lemma_own_is_without(request.messages, turns, turns[k].request.messages, reasoning);
        }
        if result is Ok {
            lemma_own_is_without(request.messages, turns, result->Ok_0@.messages, reasoning);
        }
    } else {
        assert(turns =~= Seq::<Exchange>::empty());
    }
}

proof fn lemma_own_is_without(
    before: Seq<MessageView>,
    turns: Seq<Exchange>,
    messages: Seq<MessageView>,
    reasoning: Seq<char>,
)
    requires
        all_own(before, turns, messages),
        without(before, reasoning),
        forall|k: int|
            0 <= k < turns.len() ==> reasoning_in((#[trigger] turns[k]).said) != reasoning,
    ensures
        without(messages, reasoning),
{
    assert forall|k: int| 0 <= k < messages.len() implies (#[trigger] messages[k]).reasoning
        != Some(reasoning) by {
        assert(own(before, turns, messages[k]));
    }
}

} // verus!
