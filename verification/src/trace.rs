//! What a run comes to for each answer of the model, the policy, the tools and the user.

use vstd::prelude::*;

use crate::executor;
use crate::executor::ContinuationView;
use crate::executor::DecisionView;
use crate::executor::ErrorView;
use crate::executor::Exchange;
use crate::executor::GivenView;
use crate::executor::ReadOnlyToolPolicy;
use crate::executor::ResultView;
use crate::executor::ToolPolicy;
use crate::executor::ToolPolicyContext;
use crate::executor::ToolPolicyDecision;
use crate::executor::TurnProgress;
use crate::executor::TurnView;
use crate::provider::ProviderErrorView;
use crate::provider::ProviderToolCall;
use crate::provider::RequestView;
use crate::provider::ToolCallView;
use crate::run;
use crate::run::AgentRunId;
use crate::run::AgentState;
use crate::run::AgentUsage;
use crate::run::ApprovalId;
use crate::run::BudgetResource;
use crate::run::Cancellation;
use crate::run::EventKind;
use crate::run::EventView;
use crate::run::InvalidTransition;
use crate::run::RunView;

verus! {

/// What a run learns from outside: whether it was asked to stop when it looked, how a turn of the
/// model went, what the policy said of a call, and what came of a call.
pub enum Step {
    Looked(bool),
    Asked(Exchange),
    Decided(ToolCallView, DecisionView),
    Ran(ToolCallView, GivenView),
}

/// What a run does next. It looks whether it was asked to stop before a turn or the calls of a
/// turn (`Next`), once a turn is over (`Heard`), before and after it tells that the answer is
/// coming (`Answered`, `Finalizing`), and before each call (`Calls`). It asks the model, has the
/// policy decide and runs a tool where the phase says so.
pub enum Phase {
    Next,
    Ask(RequestView, bool),
    Heard(TurnView),
    Answered,
    Finalizing,
    Calls,
    Decide(ToolCallView),
    Run(ToolCallView),
    Over(Result<ResultView, ErrorView>),
    Astray,
}

/// A run under way: the run, its conversation, what was told of it, whether the user approved the
/// next call, and what is next.
#[verifier::ext_equal]
pub struct Machine {
    pub run: RunView,
    pub talk: ContinuationView,
    pub log: Seq<EventView>,
    pub approved: bool,
    pub phase: Phase,
}

/// One thing more is told.
pub open spec fn telling(m: Machine, kind: EventKind) -> Machine {
    Machine { log: m.log.push(EventView { run_id: m.run.id, kind }), ..m }
}

/// The run stands elsewhere.
pub open spec fn standing(m: Machine, state: AgentState) -> Machine {
    Machine { run: RunView { state, ..m.run }, ..m }
}

/// Something else is next.
pub open spec fn facing(m: Machine, phase: Phase) -> Machine {
    Machine { phase, ..m }
}

/// No answer comes.
pub open spec fn ended(m: Machine, error: ErrorView) -> Machine {
    facing(m, Phase::Over(Err(error)))
}

/// The run cannot go where it has to.
pub open spec fn refused(m: Machine, to: AgentState) -> Machine {
    ended(m, ErrorView::Transition(InvalidTransition { from: m.run.state, to }))
}

/// The run fails, if it still can.
pub open spec fn fails(m: Machine, error: ErrorView) -> Machine {
    if run::legal(m.run.state, AgentState::Failed) {
        ended(
            telling(
                standing(m, AgentState::Failed),
                EventKind::Failed(executor::diagnosis(error)),
            ),
            error,
        )
    } else {
        refused(m, AgentState::Failed)
    }
}

/// The model's turn fails; that is told in any case.
pub open spec fn turn_fails(m: Machine, error: ProviderErrorView) -> Machine {
    let error = ErrorView::Provider(error);
    let stands = if run::legal(m.run.state, AgentState::Failed) {
        standing(m, AgentState::Failed)
    } else {
        m
    };
    ended(telling(stands, EventKind::Failed(executor::diagnosis(error))), error)
}

/// The run stops because it was asked to.
pub open spec fn stops(m: Machine) -> Machine {
    if run::terminal(m.run.state) {
        ended(m, ErrorView::Cancelled)
    } else {
        ended(
            telling(
                Machine {
                    run: RunView { state: AgentState::Cancelled, pending: None, ..m.run },
                    ..m
                },
                EventKind::Cancelled,
            ),
            ErrorView::Cancelled,
        )
    }
}

/// A turn of the model begins, if the budget covers it. The last turn that it covers is the final
/// one.
pub open spec fn begins(m: Machine) -> Machine {
    let used = m.run.usage.provider_turns;
    let most = m.run.budget.max_provider_turns;
    if used < most {
        let final_turn = used + 1 == most;
        let counted = Machine {
            run: RunView {
                usage: AgentUsage { provider_turns: (used + 1) as usize, ..m.run.usage },
                ..m.run
            },
            approved: false,
            ..m
        };
        facing(
            telling(counted, EventKind::ModelStarted),
            Phase::Ask(
                if final_turn {
                    executor::final_request(m.talk.request)
                } else {
                    m.talk.request
                },
                final_turn,
            ),
        )
    } else {
        fails(
            Machine { approved: false, ..m },
            ErrorView::BudgetExceeded(run::exceeded(BudgetResource::ProviderTurns, used, most)),
        )
    }
}

/// What the model said is taken in.
pub open spec fn hears(m: Machine, final_turn: bool, turn: Exchange) -> Machine {
    let heard = executor::accept_all(
        TurnProgress {
            continuation: m.talk,
            turn: executor::silent(final_turn),
            told: Seq::empty(),
        },
        turn.said,
    );
    let after = Machine {
        talk: heard.continuation,
        log: m.log + executor::tell(m.run.id, heard.told),
        ..m
    };
    match turn.error {
        Some(error) => turn_fails(after, error),
        None => facing(after, Phase::Heard(heard.turn)),
    }
}

/// A turn is settled: it broke a rule, or it was the answer, or its calls are next.
pub open spec fn settles(m: Machine, turn: TurnView) -> Machine {
    match executor::protocol_error(turn) {
        Some(message) => fails(m, ErrorView::ProviderProtocol(message)),
        None => {
            let after = Machine {
                talk: executor::settled(m.talk, turn),
                log: m.log + executor::tell(m.run.id, executor::settled_events(turn)),
                approved: false,
                ..m
            };
            if turn.calls.len() == 0 {
                facing(after, Phase::Answered)
            } else if run::legal(m.run.state, AgentState::WaitingForTool) {
                facing(standing(after, AgentState::WaitingForTool), Phase::Next)
            } else {
                refused(after, AgentState::WaitingForTool)
            }
        },
    }
}

/// It is told that the answer is coming.
pub open spec fn finalizes(m: Machine) -> Machine {
    if run::legal(m.run.state, AgentState::Finalizing) {
        facing(
            telling(standing(m, AgentState::Finalizing), EventKind::Finalizing),
            Phase::Finalizing,
        )
    } else {
        refused(m, AgentState::Finalizing)
    }
}

/// The answer is there.
pub open spec fn completes(m: Machine) -> Machine {
    if run::legal(m.run.state, AgentState::Completed) {
        facing(
            telling(standing(m, AgentState::Completed), EventKind::Completed),
            Phase::Over(
                Ok(
                    ResultView {
                        content: m.talk.content,
                        thinking: m.talk.thinking,
                        messages: m.talk.request.messages,
                    },
                ),
            ),
        )
    } else {
        refused(m, AgentState::Completed)
    }
}

/// The first call is taken up. One that the user approved is run at once; any other is counted, if
/// the budget covers it, and decided on.
pub open spec fn takes_call(m: Machine) -> Machine {
    let call = m.talk.calls[0];
    let after = Machine {
        talk: ContinuationView { calls: m.talk.calls.skip(1), ..m.talk },
        approved: false,
        ..m
    };
    let used = m.run.usage.tool_calls;
    let most = m.run.budget.max_tool_calls;
    if m.approved {
        starts(after, call)
    } else if used < most {
        let counted = Machine {
            run: RunView {
                usage: AgentUsage { tool_calls: (used + 1) as usize, ..m.run.usage },
                ..m.run
            },
            ..after
        };
        facing(telling(counted, EventKind::ToolRequested), Phase::Decide(call))
    } else {
        fails(
            after,
            ErrorView::BudgetExceeded(run::exceeded(BudgetResource::ToolCalls, used, most)),
        )
    }
}

/// A tool starts.
pub open spec fn starts(m: Machine, call: ToolCallView) -> Machine {
    if m.talk.tool_running || run::legal(m.run.state, AgentState::RunningTool) {
        let runs = if m.talk.tool_running {
            m
        } else {
            standing(m, AgentState::RunningTool)
        };
        facing(
            telling(
                Machine { talk: ContinuationView { tool_running: true, ..m.talk }, ..runs },
                EventKind::ToolStarted,
            ),
            Phase::Run(call),
        )
    } else {
        refused(m, AgentState::RunningTool)
    }
}

/// The model is told what came of a call; the next call follows, or another turn.
pub open spec fn records(
    m: Machine,
    call: ToolCallView,
    succeeded: bool,
    content: Seq<char>,
) -> Machine {
    resumes(
        telling(
            Machine {
                talk: executor::with_message(
                    m.talk,
                    executor::tool_message_view(call.id, content),
                ),
                ..m
            },
            EventKind::ToolCompleted(succeeded),
        ),
    )
}

/// The next call follows, or another turn.
pub open spec fn resumes(m: Machine) -> Machine {
    if m.talk.calls.len() > 0 {
        facing(m, Phase::Calls)
    } else if run::legal(m.run.state, AgentState::RunningModel) {
        facing(standing(m, AgentState::RunningModel), Phase::Next)
    } else {
        refused(m, AgentState::RunningModel)
    }
}

/// A call waits for the user, first among those still to be handled.
pub open spec fn waits(m: Machine, call: ToolCallView, reason: Seq<char>) -> Machine {
    let id = ApprovalId(m.run.next_approval_id);
    let approval = run::approval_of(m.run.id, id, call, reason);
    let after = Machine {
        talk: ContinuationView { calls: seq![call] + m.talk.calls, ..m.talk },
        run: RunView {
            next_approval_id: if m.run.next_approval_id == u64::MAX {
                u64::MAX
            } else {
                (m.run.next_approval_id + 1) as u64
            },
            pending: Some((id, call)),
            ..m.run
        },
        ..m
    };
    if run::legal(m.run.state, AgentState::WaitingForApproval) {
        ended(
            Machine {
                log: m.log.push(executor::approval_event(approval)),
                ..standing(after, AgentState::WaitingForApproval)
            },
            ErrorView::ApprovalRequired(approval),
        )
    } else {
        refused(after, AgentState::WaitingForApproval)
    }
}

/// What the policy said of a call is followed.
pub open spec fn follows(m: Machine, call: ToolCallView, decision: DecisionView) -> Machine {
    match decision {
        DecisionView::Allow => starts(m, call),
        DecisionView::Deny(reason) => records(m, call, false, executor::denial_text(reason)),
        DecisionView::RequireApproval(reason) => waits(m, call, reason),
    }
}

/// One step of a run. A step that does not fit what is next leads astray.
#[verifier::opaque]
pub open spec fn step(m: Machine, s: Step) -> Machine {
    match (m.phase, s) {
        (Phase::Next, Step::Looked(asked)) => if asked {
            stops(m)
        } else if m.talk.calls.len() > 0 {
            facing(m, Phase::Calls)
        } else {
            begins(m)
        },
        (Phase::Ask(request, final_turn), Step::Asked(turn)) => if turn.request == request {
            hears(m, final_turn, turn)
        } else {
            facing(m, Phase::Astray)
        },
        (Phase::Heard(turn), Step::Looked(asked)) => if asked {
            stops(m)
        } else {
            settles(m, turn)
        },
        (Phase::Answered, Step::Looked(asked)) => if asked {
            stops(m)
        } else {
            finalizes(m)
        },
        (Phase::Finalizing, Step::Looked(asked)) => if asked {
            stops(m)
        } else {
            completes(m)
        },
        (Phase::Calls, Step::Looked(asked)) => if asked {
            stops(m)
        } else {
            takes_call(m)
        },
        (Phase::Decide(call), Step::Decided(named, decision)) => if named == call {
            follows(m, call, decision)
        } else {
            facing(m, Phase::Astray)
        },
        (Phase::Run(call), Step::Ran(named, given)) => if named == call {
            match given {
                GivenView::Told { succeeded, content } => records(m, call, succeeded, content),
                GivenView::Broken(message) => fails(m, ErrorView::Tool(message)),
            }
        } else {
            facing(m, Phase::Astray)
        },
        _ => facing(m, Phase::Astray),
    }
}

/// What a policy was asked and said: the run, the call and the decision.
#[verifier::ext_equal]
pub struct Judgement {
    pub run_id: AgentRunId,
    pub call: ToolCallView,
    pub decision: DecisionView,
}

/// A look at a handle: whether it told that the run was asked to stop, and how many turns of the
/// model, decisions of the policy, calls and things told of the run there had been by then.
#[verifier::ext_equal]
pub struct Look {
    pub handle: Cancellation,
    pub asked: bool,
    pub turns: nat,
    pub judged: nat,
    pub calls: nat,
    pub told: nat,
}

/// What was done outside so far: the turns that the model had, what the policy was asked and said,
/// the calls that were run, each with what came of it, and the looks that were taken at handles; and
/// what the tools may give for a call.
#[verifier::ext_equal]
pub struct Past {
    pub asked: Seq<Exchange>,
    pub judged: Seq<Judgement>,
    pub ran: Seq<(ToolCallView, GivenView)>,
    pub looked: Seq<Look>,
    pub gives: spec_fn(ToolCallView, GivenView) -> bool,
}

/// A run under way, and what was done outside so far.
#[verifier::ext_equal]
pub struct World {
    pub machine: Machine,
    pub past: Past,
}

/// A run that is where it is, and has come to where it is by what was done outside.
pub open spec fn at(
    run: RunView,
    talk: ContinuationView,
    log: Seq<EventView>,
    approved: bool,
    phase: Phase,
    past: Past,
) -> World {
    World { machine: Machine { run, talk, log, approved, phase }, past }
}

/// What a look of a run at its handle is, with what was done outside so far.
pub open spec fn glance(past: Past, m: Machine, asked: bool) -> Look {
    Look {
        handle: m.run.handle,
        asked,
        turns: past.asked.len(),
        judged: past.judged.len(),
        calls: past.ran.len(),
        told: m.log.len(),
    }
}

/// What one step of a run adds to what was done outside.
pub open spec fn recorded(past: Past, m: Machine, s: Step) -> Past {
    match s {
        Step::Looked(asked) => Past { looked: past.looked.push(glance(past, m, asked)), ..past },
        Step::Asked(turn) => Past { asked: past.asked.push(turn), ..past },
        Step::Decided(call, decision) => Past {
            judged: past.judged.push(Judgement { run_id: m.run.id, call, decision }),
            ..past
        },
        Step::Ran(call, given) => Past { ran: past.ran.push((call, given)), ..past },
    }
}

/// What one step makes of a run, and of what was done outside.
pub open spec fn advance(w: World, s: Step) -> World {
    World { machine: step(w.machine, s), past: recorded(w.past, w.machine, s) }
}

/// Where some steps lead.
pub open spec fn after(w: World, steps: Seq<Step>) -> World
    decreases steps.len(),
{
    if steps.len() == 0 {
        w
    } else {
        advance(after(w, steps.drop_last()), steps.last())
    }
}

/// Whether a policy, asked about a call of a run, said this.
pub open spec fn decided_by<P: ToolPolicy>(
    context: ToolPolicyContext,
    call: ToolCallView,
    decision: DecisionView,
) -> bool {
    exists|policy: &mut P, asked: &ProviderToolCall, said: ToolPolicyDecision|
        asked@ == call && said@ == decision && #[trigger] call_ensures(
            P::decide,
            (policy, context, asked),
            said,
        )
}

/// Whether a step of a run tells what was really learnt: a look at the handle of the run, a decision
/// of the policy, or what the tools may give for a call.
pub open spec fn learnt<P: ToolPolicy>(from: World, s: Step) -> bool {
    match s {
        Step::Looked(asked) => run::may_look(from.machine.run.handle, asked),
        Step::Asked(_) => true,
        Step::Decided(call, decision) => decided_by::<P>(
            ToolPolicyContext { run_id: from.machine.run.id },
            call,
            decision,
        ),
        Step::Ran(call, given) => (from.past.gives)(call, given),
    }
}

/// Whether all steps of a run tell what was really learnt.
pub open spec fn all_learnt<P: ToolPolicy>(from: World, steps: Seq<Step>) -> bool {
    forall|k: int| 0 <= k < steps.len() ==> learnt::<P>(from, #[trigger] steps[k])
}

/// Whether a run comes from one point to another under a policy, by some answers of the model and
/// the tools.
#[verifier::opaque]
pub open spec fn leads<P: ToolPolicy>(from: World, to: World) -> bool {
    exists|steps: Seq<Step>|
        all_learnt::<P>(from, steps) && to == #[trigger] after(from, steps)
}

/// Whether a run that is under way comes to an end with this run, this log, these turns of the
/// model, these calls that were run, and this outcome.
pub open spec fn comes_to_end<P: ToolPolicy>(
    from: World,
    run: RunView,
    log: Seq<EventView>,
    past: Past,
    outcome: Result<ResultView, ErrorView>,
) -> bool {
    exists|talk: ContinuationView, approved: bool| #[trigger]
        leads::<P>(from, at(run, talk, log, approved, Phase::Over(outcome), past))
}

/// Whether a run is the same, with the same handle, the same budget and the same tools.
pub open spec fn same_run(from: World, to: World) -> bool {
    &&& to.machine.run.id == from.machine.run.id
    &&& to.machine.run.budget == from.machine.run.budget
    &&& to.machine.run.handle == from.machine.run.handle
    &&& to.past.gives == from.past.gives
}

proof fn lemma_after_same(from: World, steps: Seq<Step>)
    ensures
        same_run(from, after(from, steps)),
    decreases steps.len(),
{
    if steps.len() > 0 {
        lemma_after_same(from, steps.drop_last());
        lemma_same_run(after(from, steps.drop_last()).machine, steps.last());
    }
}

pub proof fn lemma_leads_same<P: ToolPolicy>(from: World, to: World)
    requires
        leads::<P>(from, to),
    ensures
        same_run(from, to),
{
    reveal(leads);
    let steps = choose|steps: Seq<Step>|
        all_learnt::<P>(from, steps) && to == #[trigger] after(from, steps);
    lemma_after_same(from, steps);
}

pub proof fn lemma_leads_start<P: ToolPolicy>(w: World)
    ensures
        leads::<P>(w, w),
{
    reveal(leads);
    assert(after(w, Seq::empty()) == w);
}

pub proof fn lemma_leads_step<P: ToolPolicy>(from: World, mid: World, s: Step)
    requires
        leads::<P>(from, mid),
        learnt::<P>(mid, s),
    ensures
        leads::<P>(from, advance(mid, s)),
{
    lemma_leads_same::<P>(from, mid);
    reveal(leads);
    let steps = choose|steps: Seq<Step>|
        all_learnt::<P>(from, steps) && mid == #[trigger] after(from, steps);
    let more = steps.push(s);
    assert(more.drop_last() =~= steps);
    assert(after(from, more) == advance(mid, s));
    assert(all_learnt::<P>(from, more)) by {
        assert forall|k: int| 0 <= k < more.len() implies learnt::<P>(from, #[trigger] more[k],
        ) by {
            if k < steps.len() {
                assert(more[k] == steps[k]);
            }
        }
    }
}

pub proof fn lemma_end<P: ToolPolicy>(from: World, to: World, outcome: Result<ResultView, ErrorView>)
    requires
        leads::<P>(from, to),
        to.machine.phase == Phase::Over(outcome),
    ensures
        comes_to_end::<P>(from, to.machine.run, to.machine.log, to.past, outcome),
{
    assert(to == at(
        to.machine.run,
        to.machine.talk,
        to.machine.log,
        to.machine.approved,
        Phase::Over(outcome),
        to.past,
    ));
}

pub proof fn lemma_same_run(m: Machine, s: Step)
    ensures
        step(m, s).run.id == m.run.id,
        step(m, s).run.budget == m.run.budget,
        step(m, s).run.handle == m.run.handle,
{
    reveal(step);
}

/// Whether a run looks, before it goes on, if it was asked to stop.
pub open spec fn looking(phase: Phase) -> bool {
    phase is Next || phase is Heard || phase is Answered || phase is Finalizing || phase is Calls
}

pub proof fn lemma_asked_to_stop(m: Machine)
    requires
        looking(m.phase),
    ensures
        step(m, Step::Looked(true)) == stops(m),
{
    reveal(step);
}

pub proof fn lemma_goes_on(m: Machine)
    requires
        looking(m.phase),
    ensures
        step(m, Step::Looked(false)) == (match m.phase {
            Phase::Next => if m.talk.calls.len() > 0 {
                facing(m, Phase::Calls)
            } else {
                begins(m)
            },
            Phase::Heard(turn) => settles(m, turn),
            Phase::Answered => finalizes(m),
            Phase::Finalizing => completes(m),
            _ => takes_call(m),
        }),
{
    reveal(step);
}

pub proof fn lemma_heard(m: Machine, turn: Exchange)
    requires
        m.phase is Ask,
        turn.request == m.phase->Ask_0,
    ensures
        step(m, Step::Asked(turn)) == hears(m, m.phase->Ask_1, turn),
{
    reveal(step);
}

pub proof fn lemma_decided(m: Machine, call: ToolCallView, decision: DecisionView)
    requires
        m.phase == Phase::Decide(call),
    ensures
        step(m, Step::Decided(call, decision)) == follows(m, call, decision),
{
    reveal(step);
}

pub proof fn lemma_ran(m: Machine, call: ToolCallView, given: GivenView)
    requires
        m.phase == Phase::Run(call),
    ensures
        step(m, Step::Ran(call, given)) == (match given {
            GivenView::Told { succeeded, content } => records(m, call, succeeded, content),
            GivenView::Broken(message) => fails(m, ErrorView::Tool(message)),
        }),
{
    reveal(step);
}

pub proof fn lemma_then_ends<P: ToolPolicy>(
    from: World,
    mid: World,
    run: RunView,
    log: Seq<EventView>,
    past: Past,
    outcome: Result<ResultView, ErrorView>,
)
    requires
        leads::<P>(from, mid),
        comes_to_end::<P>(mid, run, log, past, outcome),
    ensures
        comes_to_end::<P>(from, run, log, past, outcome),
{
    let (talk, approved) = choose|talk: ContinuationView, approved: bool| #[trigger]
        leads::<P>(mid, at(run, talk, log, approved, Phase::Over(outcome), past));
    lemma_leads_chain::<P>(
        from,
        mid,
        at(run, talk, log, approved, Phase::Over(outcome), past),
    );
}

pub proof fn lemma_after_add(w: World, a: Seq<Step>, b: Seq<Step>)
    ensures
        after(w, a + b) == after(after(w, a), b),
    decreases b.len(),
{
    if b.len() == 0 {
        assert(a + b =~= a);
    } else {
        assert((a + b).drop_last() =~= a + b.drop_last());
        lemma_after_add(w, a, b.drop_last());
    }
}

pub proof fn lemma_leads_chain<P: ToolPolicy>(from: World, mid: World, to: World)
    requires
        leads::<P>(from, mid),
        leads::<P>(mid, to),
    ensures
        leads::<P>(from, to),
{
    lemma_leads_same::<P>(from, mid);
    reveal(leads);
    let a = choose|steps: Seq<Step>|
        all_learnt::<P>(from, steps) && mid == #[trigger] after(from, steps);
    let b = choose|steps: Seq<Step>|
        all_learnt::<P>(mid, steps) && to == #[trigger] after(mid, steps);
    lemma_after_add(from, a, b);
    assert(all_learnt::<P>(from, a + b)) by {
        assert forall|k: int| 0 <= k < (a + b).len() implies learnt::<P>(from, #[trigger] (a + b)[k],
        ) by {
            if k < a.len() {
                assert((a + b)[k] == a[k]);
            } else {
                assert((a + b)[k] == b[k - a.len()]);
            }
        }
    }
}

/// Whether a policy allows a call of a run.
pub open spec fn allowed_by<P: ToolPolicy>(run_id: AgentRunId, call: ToolCallView) -> bool {
    decided_by::<P>(ToolPolicyContext { run_id }, call, DecisionView::Allow)
}

/// Whether a call may be run from some point on: it is allowed by the policy, or it is the first
/// one and the user approved it.
pub open spec fn may_run<P: ToolPolicy>(from: World, k: int, call: ToolCallView) -> bool {
    ||| allowed_by::<P>(from.machine.run.id, call)
    ||| k == from.past.ran.len() && from.machine.approved && from.machine.talk.calls.len() > 0 && call
        == from.machine.talk.calls[0]
}

/// Whether all calls that were run since some point could be run.
pub open spec fn all_may_run<P: ToolPolicy>(from: World, to: World) -> bool {
    &&& from.past.ran.is_prefix_of(to.past.ran)
    &&& forall|k: int|
        from.past.ran.len() <= k < to.past.ran.len() ==> may_run::<P>(from, k, (#[trigger] to.past.ran[k]).0)
}

spec fn guarded<P: ToolPolicy>(from: World, w: World) -> bool {
    w.machine.phase is Astray || {
        &&& w.machine.run.id == from.machine.run.id
        &&& all_may_run::<P>(from, w)
        &&& w.machine.approved ==> {
            &&& from.machine.approved
            &&& w.past.ran.len() == from.past.ran.len()
            &&& w.machine.talk.calls == from.machine.talk.calls
        }
        &&& match w.machine.phase {
            Phase::Run(call) => may_run::<P>(from, w.past.ran.len() as int, call) && !w.machine.approved,
            Phase::Decide(_) => !w.machine.approved,
            Phase::Calls => w.machine.talk.calls.len() > 0,
            Phase::Ask(_, _) | Phase::Heard(_) | Phase::Answered | Phase::Finalizing =>
                !w.machine.approved,
            _ => true,
        }
    }
}

proof fn lemma_guarded_step<P: ToolPolicy>(from: World, w: World, s: Step)
    requires
        guarded::<P>(from, w),
        learnt::<P>(from, s),
    ensures
        guarded::<P>(from, advance(w, s)),
{
    reveal(step);
    lemma_same_run(w.machine, s);
    let to = advance(w, s);
    if !(to.machine.phase is Astray) {
        assert(!(w.machine.phase is Astray));
        match s {
            Step::Ran(call, given) => {
                assert(w.machine.phase == Phase::Run(call));
                assert(to.past.ran =~= w.past.ran.push((call, given)));
                assert(from.past.ran =~= to.past.ran.subrange(0, from.past.ran.len() as int)) by {
                    assert(from.past.ran =~= w.past.ran.subrange(0, from.past.ran.len() as int));
                }
                assert forall|k: int| from.past.ran.len() <= k < to.past.ran.len() implies may_run::<P>(
                    from,
                    k,
                    (#[trigger] to.past.ran[k]).0,
                ) by {
                    if k < w.past.ran.len() {
                        assert(to.past.ran[k] == w.past.ran[k]);
                    }
                }
            },
            _ => {},
        }
    }
}

proof fn lemma_guarded_after<P: ToolPolicy>(from: World, steps: Seq<Step>)
    requires
        from.machine.phase is Next,
        all_learnt::<P>(from, steps),
    ensures
        guarded::<P>(from, after(from, steps)),
    decreases steps.len(),
{
    if steps.len() > 0 {
        let before = steps.drop_last();
        assert forall|k: int| 0 <= k < before.len() implies learnt::<P>(from, #[trigger] before[k],
        ) by {
            assert(before[k] == steps[k]);
        }
        lemma_guarded_after::<P>(from, before);
        assert(learnt::<P>(from, steps[steps.len() - 1]));
        lemma_guarded_step::<P>(from, after(from, before), steps.last());
    }
}

/// Whether all calls that were run since some point came to what the tools may give.
pub open spec fn all_given(from: World, to: World) -> bool {
    &&& from.past.ran.is_prefix_of(to.past.ran)
    &&& forall|k: int|
        from.past.ran.len() <= k < to.past.ran.len() ==> (from.past.gives)(
            (#[trigger] to.past.ran[k]).0,
            to.past.ran[k].1,
        )
}

proof fn lemma_given_after<P: ToolPolicy>(from: World, steps: Seq<Step>)
    requires
        all_learnt::<P>(from, steps),
    ensures
        all_given(from, after(from, steps)),
    decreases steps.len(),
{
    if steps.len() > 0 {
        let before = steps.drop_last();
        assert forall|k: int| 0 <= k < before.len() implies learnt::<P>(
            from,
            #[trigger] before[k],
        ) by {
            assert(before[k] == steps[k]);
        }
        lemma_given_after::<P>(from, before);
        assert(learnt::<P>(from, steps[steps.len() - 1]));
        let w = after(from, before);
        let to = after(from, steps);
        match steps.last() {
            Step::Ran(call, given) => {
                assert(to.past.ran =~= w.past.ran.push((call, given)));
                assert(from.past.ran =~= to.past.ran.subrange(0, from.past.ran.len() as int)) by {
                    assert(from.past.ran =~= w.past.ran.subrange(0, from.past.ran.len() as int));
                }
                assert forall|k: int|
                    from.past.ran.len() <= k < to.past.ran.len() implies (from.past.gives)(
                    (#[trigger] to.past.ran[k]).0,
                    to.past.ran[k].1,
                ) by {
                    if k < w.past.ran.len() {
                        assert(to.past.ran[k] == w.past.ran[k]);
                    }
                }
            },
            _ => {},
        }
    }
}

/// Every call that is run comes to what the tools may give for it.
pub proof fn law_calls_come_to_what_tools_give<P: ToolPolicy>(from: World, to: World)
    requires
        leads::<P>(from, to),
    ensures
        all_given(from, to),
{
    reveal(leads);
    let steps = choose|steps: Seq<Step>|
        all_learnt::<P>(from, steps) && to == #[trigger] after(from, steps);
    lemma_given_after::<P>(from, steps);
}

/// How often the policy was asked, against how often the run counted a call. It is asked right
/// after a call is counted.
spec fn judged_once(from: World, w: World) -> bool {
    w.machine.phase is Astray || {
        &&& from.past.judged.is_prefix_of(w.past.judged)
        &&& from.machine.run.usage.tool_calls <= w.machine.run.usage.tool_calls
        &&& w.past.judged.len() - from.past.judged.len() + (if w.machine.phase is Decide {
            1int
        } else {
            0
        }) == w.machine.run.usage.tool_calls - from.machine.run.usage.tool_calls
    }
}

proof fn lemma_counts(m: Machine, s: Step)
    ensures
        !(step(m, s).phase is Astray) ==> {
            &&& !(m.phase is Astray)
            &&& s is Decided <==> m.phase is Decide
            &&& step(m, s).run.usage.tool_calls == m.run.usage.tool_calls + (
            if step(m, s).phase is Decide {
                1int
            } else {
                0
            })
        },
{
    reveal(step);
}

proof fn lemma_judged_after(from: World, steps: Seq<Step>)
    requires
        from.machine.phase is Next,
    ensures
        judged_once(from, after(from, steps)),
    decreases steps.len(),
{
    if steps.len() == 0 {
        assert(from.past.judged =~= from.past.judged.subrange(0, from.past.judged.len() as int));
    } else {
        lemma_judged_after(from, steps.drop_last());
        let w = after(from, steps.drop_last());
        let to = after(from, steps);
        lemma_counts(w.machine, steps.last());
        if !(to.machine.phase is Astray) && steps.last() is Decided {
            assert(from.past.judged =~= to.past.judged.subrange(
                0,
                from.past.judged.len() as int,
            )) by {
                assert(from.past.judged =~= w.past.judged.subrange(
                    0,
                    from.past.judged.len() as int,
                ));
            }
        }
    }
}

/// The policy is asked exactly once for each call that is counted, and not at all for a call that
/// the user approved.
pub proof fn law_every_call_is_judged_once<P: ToolPolicy>(from: World, to: World)
    requires
        leads::<P>(from, to),
        from.machine.phase is Next,
        to.machine.phase is Over,
    ensures
        from.past.judged.is_prefix_of(to.past.judged),
        to.past.judged.len() - from.past.judged.len() == to.machine.run.usage.tool_calls
            - from.machine.run.usage.tool_calls,
{
    reveal(leads);
    let steps = choose|steps: Seq<Step>|
        all_learnt::<P>(from, steps) && to == #[trigger] after(from, steps);
    lemma_judged_after(from, steps);
}

proof fn lemma_stopped<P: ToolPolicy>(from: World, steps: Seq<Step>)
    requires
        from.machine.phase is Next,
        all_learnt::<P>(from, steps),
        forall|asked: bool| run::may_look(from.machine.run.handle, asked) ==> asked,
    ensures
        ({
            let to = after(from, steps);
            ||| to.machine.phase is Astray
            ||| to == from
            ||| to == advance(from, Step::Looked(true))
        }),
    decreases steps.len(),
{
    if steps.len() > 0 {
        reveal(step);
        let before = steps.drop_last();
        assert forall|k: int| 0 <= k < before.len() implies learnt::<P>(
            from,
            #[trigger] before[k],
        ) by {
            assert(before[k] == steps[k]);
        }
        lemma_stopped::<P>(from, before);
        assert(learnt::<P>(from, steps[steps.len() - 1]));
    }
}

/// A run whose handle only ever tells that it was asked to stop ends as cancelled, after one look and
/// before the model is asked, the policy is asked or a tool runs.
pub proof fn law_asked_runs_stop_at_once<P: ToolPolicy>(from: World, to: World)
    requires
        leads::<P>(from, to),
        from.machine.phase is Next,
        to.machine.phase is Over,
        forall|asked: bool| run::may_look(from.machine.run.handle, asked) ==> asked,
    ensures
        to.machine == stops(from.machine),
        to.past == recorded(from.past, from.machine, Step::Looked(true)),
{
    reveal(leads);
    let steps = choose|steps: Seq<Step>|
        all_learnt::<P>(from, steps) && to == #[trigger] after(from, steps);
    lemma_stopped::<P>(from, steps);
    lemma_asked_to_stop(from.machine);
}

/// Whether no more was done between two looks, or between a look and now, than one look allows: a turn
/// of the model, or a decision of the policy and a call.
pub open spec fn one_thing(before: Look, after: Look) -> bool {
    &&& before.turns <= after.turns
    &&& before.judged <= after.judged <= before.judged + 1
    &&& before.calls <= after.calls
    &&& before.told <= after.told
    &&& after.turns + after.calls <= before.turns + before.calls + 1
    &&& before.turns < after.turns ==> before.judged == after.judged
}

/// Whether nothing was done between two looks, or between a look and now.
pub open spec fn nothing_done(before: Look, after: Look) -> bool {
    &&& before.turns == after.turns
    &&& before.judged == after.judged
    &&& before.calls == after.calls
}

/// What a look would be now.
pub open spec fn now(w: World) -> Look {
    glance(w.past, w.machine, false)
}

/// The look behind another one, or what a look would be now.
pub open spec fn next_look(w: World, k: int) -> Look {
    if k + 1 < w.past.looked.len() {
        w.past.looked[k + 1]
    } else {
        now(w)
    }
}

/// Whether a look was followed: it was one at the handle of the run; one that told that the run was
/// asked to stop ended it, with no turn, decision or call behind it and with nothing told but that it
/// is cancelled; behind any other no more was done than it allows before the next look.
pub open spec fn followed(w: World, k: int) -> bool {
    let look = w.past.looked[k];
    &&& look.handle == w.machine.run.handle
    &&& one_thing(look, next_look(w, k))
    &&& look.asked ==> {
        &&& k + 1 == w.past.looked.len()
        &&& w.machine.phase == Phase::Over(Err(ErrorView::Cancelled))
        &&& run::terminal(w.machine.run.state)
        &&& nothing_done(look, now(w))
        &&& w.machine.log.len() <= look.told + 1
        &&& w.machine.log.len() == look.told + 1 ==> w.machine.run.state is Cancelled
            && w.machine.log.last().kind is Cancelled
    }
}

/// Whether all looks since some point were followed: nothing was done before the first, each was
/// followed, and an answer was given only right behind one.
pub open spec fn all_followed(from: World, to: World) -> bool {
    let first = from.past.looked.len() as int;
    &&& from.past.looked.is_prefix_of(to.past.looked)
    &&& nothing_done(now(from), next_look(to, first - 1))
    &&& forall|k: int| first <= k < to.past.looked.len() ==> #[trigger] followed(to, k)
    &&& match to.machine.phase {
        Phase::Over(Ok(_)) => {
            &&& first < to.past.looked.len()
            &&& nothing_done(to.past.looked.last(), now(to))
            &&& to.machine.log.len() == to.past.looked.last().told + 1
        },
        _ => true,
    }
}

/// Where a run stands behind its last look.
spec fn placed(from: World, w: World) -> bool {
    let any = from.past.looked.len() < w.past.looked.len();
    let last = w.past.looked.last();
    match w.machine.phase {
        Phase::Ask(_, _) | Phase::Decide(_) => any && nothing_done(last, now(w)),
        Phase::Run(_) => any && last.turns == w.past.asked.len() && last.calls == w.past.ran.len(),
        Phase::Next => any || nothing_done(now(from), now(w)),
        _ => any,
    }
}

proof fn lemma_told(m: Machine, s: Step)
    ensures
        m.log.len() <= step(m, s).log.len(),
{
    reveal(step);
}

proof fn lemma_placed_step(from: World, w: World, s: Step)
    requires
        w.machine.phase is Astray || (placed(from, w) && all_followed(from, w)),
    ensures
        ({
            let to = advance(w, s);
            to.machine.phase is Astray || (placed(from, to) && all_followed(from, to))
        }),
{
    let to = advance(w, s);
    let first = from.past.looked.len() as int;
    lemma_told(w.machine, s);
    lemma_same_run(w.machine, s);
    reveal(step);
    if !(to.machine.phase is Astray) {
        assert(!(w.machine.phase is Astray));
        let seen = w.past.looked;
        assert(seen.is_prefix_of(to.past.looked)) by {
            assert(seen =~= to.past.looked.subrange(0, seen.len() as int));
        }
        assert(from.past.looked.is_prefix_of(to.past.looked)) by {
            assert(from.past.looked =~= seen.subrange(0, first));
            assert(from.past.looked =~= to.past.looked.subrange(0, first));
        }
        assert forall|k: int| first <= k < to.past.looked.len() implies #[trigger] followed(
            to,
            k,
        ) by {
            if k < seen.len() {
                assert(followed(w, k));
                assert(to.past.looked[k] == seen[k]);
            }
        }
    }
}

proof fn lemma_placed_after(from: World, steps: Seq<Step>)
    requires
        from.machine.phase is Next,
    ensures
        ({
            let to = after(from, steps);
            to.machine.phase is Astray || (placed(from, to) && all_followed(from, to))
        }),
    decreases steps.len(),
{
    if steps.len() == 0 {
        assert(from.past.looked =~= from.past.looked.subrange(0, from.past.looked.len() as int));
    } else {
        lemma_placed_after(from, steps.drop_last());
        lemma_placed_step(from, after(from, steps.drop_last()), steps.last());
    }
}

/// A run looks at its handle before each turn of the model and before each call, and does what it is
/// told: once a look tells that it was asked to stop, the run is over as cancelled, and the model,
/// the policy and the tools are asked nothing more.
pub proof fn law_looks_are_followed<P: ToolPolicy>(from: World, to: World)
    requires
        leads::<P>(from, to),
        from.machine.phase is Next,
        !(to.machine.phase is Astray),
    ensures
        all_followed(from, to),
        to.machine.phase is Over ==> from.past.looked.len() < to.past.looked.len(),
{
    reveal(leads);
    let steps = choose|steps: Seq<Step>|
        all_learnt::<P>(from, steps) && to == #[trigger] after(from, steps);
    lemma_placed_after(from, steps);
}

/// No call is run that the policy did not allow, but for the one that the user approved.
pub proof fn law_only_allowed_calls_run<P: ToolPolicy>(from: World, to: World)
    requires
        leads::<P>(from, to),
        from.machine.phase is Next,
        !(to.machine.phase is Astray),
    ensures
        all_may_run::<P>(from, to),
{
    reveal(leads);
    let steps = choose|steps: Seq<Step>|
        all_learnt::<P>(from, steps) && to == #[trigger] after(from, steps);
    lemma_guarded_after::<P>(from, steps);
}

/// Under the read-only policy only tools that look are run.
pub proof fn law_read_only_runs_only_look(from: World, to: World)
    requires
        leads::<ReadOnlyToolPolicy>(from, to),
        from.machine.phase is Next,
        !from.machine.approved,
        !(to.machine.phase is Astray),
    ensures
        from.past.ran.is_prefix_of(to.past.ran),
        forall|k: int|
            from.past.ran.len() <= k < to.past.ran.len() ==> executor::read_only_tool(
                (#[trigger] to.past.ran[k]).0.name,
            ),
{
    law_only_allowed_calls_run::<ReadOnlyToolPolicy>(from, to);
    assert forall|k: int| from.past.ran.len() <= k < to.past.ran.len() implies executor::read_only_tool(
        (#[trigger] to.past.ran[k]).0.name,
    ) by {
        let call = to.past.ran[k].0;
        assert(may_run::<ReadOnlyToolPolicy>(from, k, call));
        assert(executor::read_only_decision(call.name) is Allow);
    }
}

} // verus!
