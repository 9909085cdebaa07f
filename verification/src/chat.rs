//! What a chat with tools comes to for each answer of the model, the tools and the user.

use vstd::prelude::*;

use crate::executor;
use crate::executor::Exchange;
use crate::json;
use crate::orchestration;
use crate::orchestration::RoundStepView;
use crate::orchestration::RoundTripErrorView;
use crate::orchestration::RoundTripView;
use crate::orchestration::MAX_TOOL_CALLS;
use crate::orchestration::MAX_TOOL_ROUNDS;
use crate::provider::RequestView;
use crate::provider::StreamEventView;
use crate::provider::ToolCallView;
use crate::run;
use crate::run::Cancellation;
use crate::tools::Capabilities;
use crate::tools::ToolRegistry;
use crate::tools::ToolResult;

verus! {

/// What a chat learns from outside: whether it was asked to stop when it looked, how a turn of the
/// model went, and what came of a call.
pub enum Step {
    Looked(bool),
    Asked(Exchange),
    Ran(ToolCallView, ToolResult),
}

/// What a chat does next. It looks whether it was asked to stop at its beginning, before and after
/// each turn of the model, before each call, and after the last one.
pub enum Phase {
    Begin,
    Next,
    Ask(RequestView),
    Heard(Seq<StreamEventView>),
    Calls(Seq<ToolCallView>),
    Run(ToolCallView, Seq<ToolCallView>),
    Over(Result<Seq<StreamEventView>, RoundTripErrorView>),
    Astray,
}

/// A look at a handle: whether it told that the chat was asked to stop, and how many turns of the
/// model and calls there had been by then.
#[verifier::ext_equal]
pub struct Look {
    pub handle: Cancellation,
    pub asked: bool,
    pub turns: nat,
    pub calls: nat,
}

/// What was done outside so far: the turns that the model had, the calls that were run, each with
/// what came of it, and the looks that were taken at handles.
#[verifier::ext_equal]
pub struct Done {
    pub asked: Seq<Exchange>,
    pub ran: Seq<(ToolCallView, ToolResult)>,
    pub looked: Seq<Look>,
}

/// A chat under way: the chat, what is next, the handle by which it is asked to stop, and what was
/// done outside so far.
#[verifier::ext_equal]
pub struct Chat {
    pub trip: RoundTripView,
    pub phase: Phase,
    pub handle: Cancellation,
    pub done: Done,
}

/// What one step of a chat adds to what was done outside.
pub open spec fn recorded(chat: Chat, s: Step) -> Done {
    let done = chat.done;
    match s {
        Step::Looked(asked) => Done {
            looked: done.looked.push(
                Look {
                    handle: chat.handle,
                    asked,
                    turns: done.asked.len(),
                    calls: done.ran.len(),
                },
            ),
            ..done
        },
        Step::Asked(turn) => Done { asked: done.asked.push(turn), ..done },
        Step::Ran(call, result) => Done { ran: done.ran.push((call, result)), ..done },
    }
}

/// Something else is next.
pub open spec fn facing(chat: Chat, phase: Phase) -> Chat {
    Chat { phase, ..chat }
}

/// No answer comes.
pub open spec fn ended(chat: Chat, error: RoundTripErrorView) -> Chat {
    facing(chat, Phase::Over(Err(error)))
}

/// What the model said is taken in.
pub open spec fn hears(chat: Chat, turn: Exchange) -> Chat {
    match turn.error {
        Some(error) => ended(chat, RoundTripErrorView::Provider(error)),
        None => facing(chat, Phase::Heard(turn.said)),
    }
}

/// A turn is settled: it was the answer, or its calls are refused, or they join the conversation
/// and are next.
pub open spec fn settles(chat: Chat, said: Seq<StreamEventView>, tools: bool) -> Chat {
    match orchestration::next_step(chat.trip, orchestration::calls_in(said), tools) {
        RoundStepView::Answer => facing(chat, Phase::Over(Ok(said))),
        RoundStepView::Fail(error) => ended(chat, error),
        RoundStepView::RunTools(calls) => Chat {
            trip: RoundTripView {
                request: orchestration::asked_with(
                    chat.trip.request,
                    orchestration::calling_message(calls),
                ),
                total_calls: chat.trip.total_calls + calls.len(),
                ..chat.trip
            },
            phase: Phase::Calls(calls),
            ..chat
        },
    }
}

/// The next call is run, or the round is over.
pub open spec fn handles(chat: Chat, calls: Seq<ToolCallView>) -> Chat {
    if calls.len() > 0 {
        facing(chat, Phase::Run(calls[0], calls.skip(1)))
    } else {
        Chat {
            trip: RoundTripView { round: chat.trip.round + 1, ..chat.trip },
            phase: Phase::Next,
            ..chat
        }
    }
}

/// The model is told what came of a call.
pub open spec fn records(
    chat: Chat,
    call: ToolCallView,
    rest: Seq<ToolCallView>,
    result: ToolResult,
) -> Chat {
    Chat {
        trip: RoundTripView {
            request: orchestration::asked_with(
                chat.trip.request,
                executor::tool_message_view(
                    call.id,
                    json::json_text(orchestration::result_json(result, call.name)),
                ),
            ),
            ..chat.trip
        },
        phase: Phase::Calls(rest),
        ..chat
    }
}

/// What one step makes of a chat that has tools or has none, and of what was done outside.
pub open spec fn step(chat: Chat, tools: bool, s: Step) -> Chat {
    Chat { done: recorded(chat, s), ..moved(chat, tools, s) }
}

/// Where one step takes a chat that has tools or has none. A step that does not fit what is next
/// leads astray.
pub open spec fn moved(chat: Chat, tools: bool, s: Step) -> Chat {
    match s {
        Step::Looked(asked) => match chat.phase {
            Phase::Begin => if asked {
                ended(chat, RoundTripErrorView::Cancelled)
            } else {
                facing(chat, Phase::Next)
            },
            Phase::Next => if asked {
                ended(chat, RoundTripErrorView::Cancelled)
            } else {
                facing(chat, Phase::Ask(orchestration::next_request(chat.trip)))
            },
            Phase::Heard(said) => if asked {
                ended(chat, RoundTripErrorView::Cancelled)
            } else {
                settles(chat, said, tools)
            },
            Phase::Calls(calls) => if asked {
                ended(chat, RoundTripErrorView::Cancelled)
            } else {
                handles(chat, calls)
            },
            _ => facing(chat, Phase::Astray),
        },
        Step::Asked(turn) => if chat.phase == Phase::Ask(turn.request) {
            hears(chat, turn)
        } else {
            facing(chat, Phase::Astray)
        },
        Step::Ran(call, result) => match chat.phase {
            Phase::Run(named, rest) => if named == call {
                records(chat, call, rest, result)
            } else {
                facing(chat, Phase::Astray)
            },
            _ => facing(chat, Phase::Astray),
        },
    }
}

/// Where some steps lead.
pub open spec fn after(chat: Chat, tools: bool, steps: Seq<Step>) -> Chat
    decreases steps.len(),
{
    if steps.len() == 0 {
        chat
    } else {
        step(after(chat, tools, steps.drop_last()), tools, steps.last())
    }
}

/// Whether a step of a chat tells what was really learnt: a look at the handle of the chat, or what
/// the registry makes of a call.
pub open spec fn learnt<C: Capabilities>(
    registry: Option<&ToolRegistry<C>>,
    cancellation: &Cancellation,
    s: Step,
) -> bool {
    match (s, registry) {
        (Step::Ran(call, result), Some(registry)) => orchestration::call_comes_to(
            registry,
            cancellation,
            call,
            result,
        ),
        (Step::Ran(_, _), None) => false,
        (Step::Looked(asked), _) => run::may_look(*cancellation, asked),
        (Step::Asked(_), _) => true,
    }
}

/// Whether all steps of a chat tell what was really learnt.
pub open spec fn all_learnt<C: Capabilities>(
    registry: Option<&ToolRegistry<C>>,
    cancellation: &Cancellation,
    steps: Seq<Step>,
) -> bool {
    forall|k: int|
        0 <= k < steps.len() ==> learnt(registry, cancellation, #[trigger] steps[k])
}

/// Whether a chat comes from one point to another with the tools of a registry, by some answers of
/// the model.
#[verifier::opaque]
pub open spec fn leads<C: Capabilities>(
    registry: Option<&ToolRegistry<C>>,
    cancellation: &Cancellation,
    from: Chat,
    to: Chat,
) -> bool {
    exists|steps: Seq<Step>|
        all_learnt(registry, cancellation, steps) && to == #[trigger] after(
            from,
            registry is Some,
            steps,
        )
}

/// A chat that is over.
pub open spec fn over(
    trip: RoundTripView,
    outcome: Result<Seq<StreamEventView>, RoundTripErrorView>,
    handle: Cancellation,
    done: Done,
) -> Chat {
    Chat { trip, phase: Phase::Over(outcome), handle, done }
}

/// Whether a chat that is under way comes to an end with this done outside, and this outcome.
pub open spec fn comes_to_end<C: Capabilities>(
    registry: Option<&ToolRegistry<C>>,
    cancellation: &Cancellation,
    from: Chat,
    done: Done,
    outcome: Result<Seq<StreamEventView>, RoundTripErrorView>,
) -> bool {
    exists|trip: RoundTripView|
        leads(registry, cancellation, from, #[trigger] over(trip, outcome, *cancellation, done))
}

pub proof fn lemma_leads_start<C: Capabilities>(
    registry: Option<&ToolRegistry<C>>,
    cancellation: &Cancellation,
    chat: Chat,
)
    ensures
        leads(registry, cancellation, chat, chat),
{
    reveal(leads);
    assert(after(chat, registry is Some, Seq::empty()) == chat);
}

pub proof fn lemma_leads_step<C: Capabilities>(
    registry: Option<&ToolRegistry<C>>,
    cancellation: &Cancellation,
    from: Chat,
    mid: Chat,
    s: Step,
)
    requires
        leads(registry, cancellation, from, mid),
        learnt(registry, cancellation, s),
    ensures
        leads(registry, cancellation, from, step(mid, registry is Some, s)),
{
    reveal(leads);
    let steps = choose|steps: Seq<Step>|
        all_learnt(registry, cancellation, steps) && mid == #[trigger] after(
            from,
            registry is Some,
            steps,
        );
    let more = steps.push(s);
    assert(more.drop_last() =~= steps);
    assert(after(from, registry is Some, more) == step(mid, registry is Some, s));
    assert forall|k: int| 0 <= k < more.len() implies learnt(
        registry,
        cancellation,
        #[trigger] more[k],
    ) by {
        if k < steps.len() {
            assert(more[k] == steps[k]);
        }
    }
}

pub proof fn lemma_end<C: Capabilities>(
    registry: Option<&ToolRegistry<C>>,
    cancellation: &Cancellation,
    from: Chat,
    to: Chat,
    outcome: Result<Seq<StreamEventView>, RoundTripErrorView>,
)
    requires
        leads(registry, cancellation, from, to),
        to.phase == Phase::Over(outcome),
        to.handle == *cancellation,
    ensures
        comes_to_end(registry, cancellation, from, to.done, outcome),
{
    assert(to == over(to.trip, outcome, *cancellation, to.done));
}

/// Whether a chat has kept to its limits so far: in rounds, in calls, and in turns of the model,
/// which has at most one turn without tools once the rounds are used up.
pub open spec fn within_limits(from: Chat, chat: Chat) -> bool {
    &&& chat.trip.round <= MAX_TOOL_ROUNDS
    &&& chat.trip.total_calls <= MAX_TOOL_CALLS
    &&& from.done.asked.is_prefix_of(chat.done.asked)
    &&& chat.done.asked.len() <= from.done.asked.len() + MAX_TOOL_ROUNDS + 1
}

spec fn kept(from: Chat, chat: Chat) -> bool {
    chat.phase is Astray || {
        &&& within_limits(from, chat)
        &&& match chat.phase {
            Phase::Begin | Phase::Next => chat.done.asked.len() == from.done.asked.len() + chat.trip.round,
            Phase::Ask(request) => {
                &&& chat.done.asked.len() == from.done.asked.len() + chat.trip.round
                &&& chat.trip.round == MAX_TOOL_ROUNDS ==> request.tools is None
            },
            Phase::Heard(_) => chat.done.asked.len() == from.done.asked.len() + chat.trip.round + 1,
            Phase::Calls(_) | Phase::Run(_, _) => {
                &&& chat.done.asked.len() == from.done.asked.len() + chat.trip.round + 1
                &&& chat.trip.round < MAX_TOOL_ROUNDS
            },
            _ => true,
        }
        &&& forall|k: int|
            from.done.asked.len() + MAX_TOOL_ROUNDS <= k < chat.done.asked.len() ==> (
            #[trigger] chat.done.asked[k]).request.tools is None
    }
}

proof fn lemma_kept_step(from: Chat, chat: Chat, tools: bool, s: Step)
    requires
        kept(from, chat),
    ensures
        kept(from, step(chat, tools, s)),
{
    let to = step(chat, tools, s);
    match s {
        Step::Asked(turn) => {
            if !(to.phase is Astray) {
                assert(to.done.asked =~= chat.done.asked.push(turn));
                assert(from.done.asked =~= to.done.asked.subrange(0, from.done.asked.len() as int)) by {
                    assert(from.done.asked =~= chat.done.asked.subrange(0, from.done.asked.len() as int));
                }
                assert forall|k: int|
                    from.done.asked.len() + MAX_TOOL_ROUNDS <= k < to.done.asked.len() implies (
                #[trigger] to.done.asked[k]).request.tools is None by {
                    if k < chat.done.asked.len() {
                        assert(to.done.asked[k] == chat.done.asked[k]);
                    }
                }
            }
        },
        _ => {},
    }
}

proof fn lemma_kept_after(from: Chat, tools: bool, steps: Seq<Step>)
    requires
        from.phase is Begin,
        from.trip.round == 0,
        from.trip.total_calls == 0,
    ensures
        kept(from, after(from, tools, steps)),
    decreases steps.len(),
{
    if steps.len() == 0 {
        assert(from.done.asked =~= from.done.asked.subrange(0, from.done.asked.len() as int));
    } else {
        lemma_kept_after(from, tools, steps.drop_last());
        lemma_kept_step(from, after(from, tools, steps.drop_last()), tools, steps.last());
    }
}

proof fn lemma_stopped<C: Capabilities>(
    registry: Option<&ToolRegistry<C>>,
    cancellation: &Cancellation,
    from: Chat,
    steps: Seq<Step>,
)
    requires
        from.phase is Begin,
        all_learnt(registry, cancellation, steps),
        forall|asked: bool| run::may_look(*cancellation, asked) ==> asked,
    ensures
        ({
            let to = after(from, registry is Some, steps);
            ||| to.phase is Astray
            ||| to == from
            ||| to == step(from, registry is Some, Step::Looked(true))
        }),
    decreases steps.len(),
{
    if steps.len() > 0 {
        let before = steps.drop_last();
        assert forall|k: int| 0 <= k < before.len() implies learnt(
            registry,
            cancellation,
            #[trigger] before[k],
        ) by {
            assert(before[k] == steps[k]);
        }
        lemma_stopped(registry, cancellation, from, before);
        assert(learnt(registry, cancellation, steps[steps.len() - 1]));
    }
}

/// A chat whose handle only ever tells that it was asked to stop ends as cancelled, after one look and
/// before the model is asked and before a tool runs.
pub proof fn law_asked_chats_stop_at_once<C: Capabilities>(
    registry: Option<&ToolRegistry<C>>,
    cancellation: &Cancellation,
    from: Chat,
    done: Done,
    outcome: Result<Seq<StreamEventView>, RoundTripErrorView>,
)
    requires
        comes_to_end(registry, cancellation, from, done, outcome),
        from.phase is Begin,
        forall|asked: bool| run::may_look(*cancellation, asked) ==> asked,
    ensures
        outcome == Err::<Seq<StreamEventView>, RoundTripErrorView>(RoundTripErrorView::Cancelled),
        done == recorded(from, Step::Looked(true)),
{
    reveal(leads);
    let trip = choose|trip: RoundTripView|
        leads(registry, cancellation, from, #[trigger] over(trip, outcome, *cancellation, done));
    let to = over(trip, outcome, *cancellation, done);
    let steps = choose|steps: Seq<Step>|
        all_learnt(registry, cancellation, steps) && to == #[trigger] after(
            from,
            registry is Some,
            steps,
        );
    lemma_stopped(registry, cancellation, from, steps);
}

/// What a look would be now.
pub open spec fn now(chat: Chat) -> Look {
    Look {
        handle: chat.handle,
        asked: false,
        turns: chat.done.asked.len(),
        calls: chat.done.ran.len(),
    }
}

/// The look behind another one, or what a look would be now.
pub open spec fn next_look(chat: Chat, k: int) -> Look {
    if k + 1 < chat.done.looked.len() {
        chat.done.looked[k + 1]
    } else {
        now(chat)
    }
}

/// Whether a look was followed: it was one at the handle of the chat; one that told that the chat was
/// asked to stop ended it, with no turn and no call behind it; behind any other the model had at most
/// one turn, or one call was made, before the next look.
pub open spec fn followed(chat: Chat, k: int) -> bool {
    let look = chat.done.looked[k];
    let next = next_look(chat, k);
    &&& look.handle == chat.handle
    &&& look.turns <= next.turns
    &&& look.calls <= next.calls
    &&& next.turns + next.calls <= look.turns + look.calls + 1
    &&& look.asked ==> {
        &&& k + 1 == chat.done.looked.len()
        &&& chat.phase == Phase::Over(Err(RoundTripErrorView::Cancelled))
        &&& look.turns == chat.done.asked.len()
        &&& look.calls == chat.done.ran.len()
    }
}

/// Whether all looks since some point were followed: nothing was done before the first, each was
/// followed, and an answer was given only right behind one.
pub open spec fn all_followed(from: Chat, to: Chat) -> bool {
    let first = from.done.looked.len() as int;
    &&& from.done.looked.is_prefix_of(to.done.looked)
    &&& now(from).turns == next_look(to, first - 1).turns
    &&& now(from).calls == next_look(to, first - 1).calls
    &&& forall|k: int| first <= k < to.done.looked.len() ==> #[trigger] followed(to, k)
    &&& match to.phase {
        Phase::Over(Ok(_)) => {
            &&& first < to.done.looked.len()
            &&& to.done.looked.last().turns == to.done.asked.len()
            &&& to.done.looked.last().calls == to.done.ran.len()
        },
        _ => true,
    }
}

/// Where a chat stands behind its last look.
spec fn placed(from: Chat, chat: Chat) -> bool {
    let any = from.done.looked.len() < chat.done.looked.len();
    let last = chat.done.looked.last();
    match chat.phase {
        Phase::Ask(_) | Phase::Run(_, _) => any && last.turns == chat.done.asked.len()
            && last.calls == chat.done.ran.len(),
        Phase::Begin => any || (chat.done.asked.len() == from.done.asked.len()
            && chat.done.ran.len() == from.done.ran.len()),
        _ => any,
    }
}

proof fn lemma_placed_step(from: Chat, chat: Chat, tools: bool, s: Step)
    requires
        chat.phase is Astray || (placed(from, chat) && all_followed(from, chat)),
    ensures
        ({
            let to = step(chat, tools, s);
            to.phase is Astray || (placed(from, to) && all_followed(from, to))
        }),
{
    let to = step(chat, tools, s);
    let first = from.done.looked.len() as int;
    if !(to.phase is Astray) {
        let seen = chat.done.looked;
        assert(from.done.looked.is_prefix_of(to.done.looked)) by {
            assert(from.done.looked =~= seen.subrange(0, first));
            assert(from.done.looked =~= to.done.looked.subrange(0, first));
        }
        assert forall|k: int| first <= k < to.done.looked.len() implies #[trigger] followed(
            to,
            k,
        ) by {
            if k < seen.len() {
                assert(followed(chat, k));
                assert(to.done.looked[k] == seen[k]);
            }
        }
    }
}

proof fn lemma_placed_after(from: Chat, tools: bool, steps: Seq<Step>)
    requires
        from.phase is Begin,
    ensures
        ({
            let to = after(from, tools, steps);
            to.phase is Astray || (placed(from, to) && all_followed(from, to))
        }),
    decreases steps.len(),
{
    if steps.len() == 0 {
        assert(from.done.looked =~= from.done.looked.subrange(0, from.done.looked.len() as int));
    } else {
        lemma_placed_after(from, tools, steps.drop_last());
        lemma_placed_step(from, after(from, tools, steps.drop_last()), tools, steps.last());
    }
}

/// A chat looks at its handle before each turn of the model and before each call, and does what it is
/// told: once a look tells that it was asked to stop, the chat is over as cancelled, and neither the
/// model nor a tool is asked anything more.
pub proof fn law_looks_are_followed<C: Capabilities>(
    registry: Option<&ToolRegistry<C>>,
    cancellation: &Cancellation,
    from: Chat,
    done: Done,
    outcome: Result<Seq<StreamEventView>, RoundTripErrorView>,
)
    requires
        comes_to_end(registry, cancellation, from, done, outcome),
        from.phase is Begin,
    ensures
        exists|trip: RoundTripView|
            all_followed(
                from,
                #[trigger] over(trip, outcome, *cancellation, done),
            ),
        from.done.looked.len() < done.looked.len(),
        done.looked.last().asked ==> {
            &&& outcome == Err::<Seq<StreamEventView>, RoundTripErrorView>(
                RoundTripErrorView::Cancelled,
            )
            &&& done.asked.len() == done.looked.last().turns
            &&& done.ran.len() == done.looked.last().calls
        },
        forall|k: int|
            from.done.looked.len() <= k < done.looked.len() - 1 ==> !(
            #[trigger] done.looked[k]).asked,
{
    reveal(leads);
    let trip = choose|trip: RoundTripView|
        leads(registry, cancellation, from, #[trigger] over(trip, outcome, *cancellation, done));
    let to = over(trip, outcome, *cancellation, done);
    let steps = choose|steps: Seq<Step>|
        all_learnt(registry, cancellation, steps) && to == #[trigger] after(
            from,
            registry is Some,
            steps,
        );
    lemma_placed_after(from, registry is Some, steps);
    assert(followed(to, done.looked.len() - 1));
    assert forall|k: int|
        from.done.looked.len() <= k < done.looked.len() - 1 implies !(
    #[trigger] done.looked[k]).asked by {
        assert(followed(to, k));
    }
}

/// A chat never has more rounds of tool calls, never makes more calls, and never asks the model
/// more often than it may; once the rounds are used up the model is asked without tools.
pub proof fn law_chats_are_bounded<C: Capabilities>(
    registry: Option<&ToolRegistry<C>>,
    cancellation: &Cancellation,
    from: Chat,
    to: Chat,
)
    requires
        leads(registry, cancellation, from, to),
        from.phase is Begin,
        from.trip.round == 0,
        from.trip.total_calls == 0,
        !(to.phase is Astray),
    ensures
        within_limits(from, to),
        forall|k: int|
            from.done.asked.len() + MAX_TOOL_ROUNDS <= k < to.done.asked.len() ==> (
            #[trigger] to.done.asked[k]).request.tools is None,
{
    reveal(leads);
    let steps = choose|steps: Seq<Step>|
        all_learnt(registry, cancellation, steps) && to == #[trigger] after(
            from,
            registry is Some,
            steps,
        );
    lemma_kept_after(from, registry is Some, steps);
}

} // verus!
