//! What is kept of looks at a handle, of the calls of a chat, and of the rules of an inspection.

use std::sync::atomic::AtomicU64;
use std::sync::atomic::Ordering;

use vstd::prelude::*;

use crate::chat;
use crate::diagnostics::ByteDiagnostic;
use crate::executor::ProviderExecutor;
use crate::executor::ToolExecutor;
use crate::executor::ToolPolicy;
use crate::orchestration;
use crate::orchestration::RunProvider;
use crate::provider::ProviderToolCall;
use crate::provider::ToolCallView;
use crate::run;
use crate::run::Cancellation;
use crate::run::EventSink;
use crate::session;
use crate::tools::Capabilities;
use crate::tools::ToolRegistry;
use crate::tools::ToolResult;
use crate::trace;

verus! {

/// The looks that a run has taken at handles. There is no other way to add to them than to look.
pub struct Looks {
    taken: Ghost<Seq<trace::Look>>,
}

impl Looks {
    /// The looks so far.
    pub closed spec fn taken(&self) -> Seq<trace::Look> {
        self.taken@
    }

    /// No look yet.
    pub fn new() -> (r: Self)
        ensures
            r.taken() == Seq::<trace::Look>::empty(),
    {
        Looks { taken: Ghost(Seq::empty()) }
    }

    /// Looks at a handle, and keeps what it told and how far the model, the policy, the tools and
    /// the watchers of the run had come by then.
    pub fn look<P: ProviderExecutor, Policy: ToolPolicy, T: ToolExecutor, S: EventSink>(
        &mut self,
        handle: &Cancellation,
        provider: &P,
        policy: &Policy,
        tools: &T,
        sink: &S,
    ) -> (r: bool)
        ensures
            run::may_look(*handle, r),
            final(self).taken() == old(self).taken().push(
                trace::Look {
                    handle: *handle,
                    asked: r,
                    turns: provider.asked().len(),
                    judged: policy.judged().len(),
                    calls: tools.ran().len(),
                    told: sink.emitted().len(),
                },
            ),
    {
        let r = handle.is_cancelled();
        proof {
            self.taken@ = self.taken@.push(
                trace::Look {
                    handle: *handle,
                    asked: r,
                    turns: provider.asked().len(),
                    judged: policy.judged().len(),
                    calls: tools.ran().len(),
                    told: sink.emitted().len(),
                },
            );
        }
        r
    }
}

/// The calls that a chat has made, and the looks that it has taken at handles. There is no other way
/// to add to them than to call and to look.
pub struct ChatRecord {
    ran: Ghost<Seq<(ToolCallView, ToolResult)>>,
    looked: Ghost<Seq<chat::Look>>,
}

impl ChatRecord {
    /// The calls so far, each with what came of it.
    pub closed spec fn ran(&self) -> Seq<(ToolCallView, ToolResult)> {
        self.ran@
    }

    /// The looks so far.
    pub closed spec fn looked(&self) -> Seq<chat::Look> {
        self.looked@
    }

    /// No call and no look yet.
    pub fn new() -> (r: Self)
        ensures
            r.ran() == Seq::<(ToolCallView, ToolResult)>::empty(),
            r.looked() == Seq::<chat::Look>::empty(),
    {
        ChatRecord { ran: Ghost(Seq::empty()), looked: Ghost(Seq::empty()) }
    }

    /// Looks at a handle, and keeps what it told, how many turns the model had had by then, and how
    /// many calls had been made.
    pub fn look<P: RunProvider>(&mut self, handle: &Cancellation, provider: &P) -> (r: bool)
        ensures
            run::may_look(*handle, r),
            final(self).ran() == old(self).ran(),
            final(self).looked() == old(self).looked().push(
                chat::Look {
                    handle: *handle,
                    asked: r,
                    turns: provider.asked().len(),
                    calls: old(self).ran().len(),
                },
            ),
    {
        let r = handle.is_cancelled();
        proof {
            self.looked@ = self.looked@.push(
                chat::Look {
                    handle: *handle,
                    asked: r,
                    turns: provider.asked().len(),
                    calls: self.ran@.len(),
                },
            );
        }
        r
    }

    /// Runs a call, and keeps what came of it.
    pub fn run_call<C: Capabilities>(
        &mut self,
        registry: &ToolRegistry<C>,
        call: &ProviderToolCall,
        cancellation: &Cancellation,
    ) -> (r: ToolResult)
        ensures
            orchestration::call_comes_to(registry, cancellation, call@, r),
            final(self).looked() == old(self).looked(),
            final(self).ran() == old(self).ran().push((call@, r)),
    {
        let r = orchestration::execute_call(registry, call, cancellation);
        proof {
            self.ran@ = self.ran@.push((call@, r));
        }
        r
    }
}

/// A reading of the latest generation: what it gave, and how many rules had been run by then.
#[verifier::ext_equal]
pub struct GenerationReading {
    pub seen: u64,
    pub rules: nat,
}

/// The rules that an inspection has run, and the readings that it has taken of the latest generation.
/// There is no other way to add to them than to run and to read.
pub struct RuleRecord {
    ran: Ghost<nat>,
    taken: Ghost<Seq<GenerationReading>>,
}

impl RuleRecord {
    /// How many rules were run.
    pub closed spec fn ran(&self) -> nat {
        self.ran@
    }

    /// The readings so far.
    pub closed spec fn taken(&self) -> Seq<GenerationReading> {
        self.taken@
    }

    /// No rule and no reading yet.
    pub fn new() -> (r: Self)
        ensures
            r.ran() == 0,
            r.taken() == Seq::<GenerationReading>::empty(),
    {
        RuleRecord { ran: Ghost(0), taken: Ghost(Seq::empty()) }
    }

    /// Reads the latest generation, and keeps what it was and how many rules had been run by then.
    pub fn read(&mut self, latest: &AtomicU64) -> (r: u64)
        ensures
            session::may_read(*latest, r),
            final(self).ran() == old(self).ran(),
            final(self).taken() == old(self).taken().push(
                GenerationReading { seen: r, rules: old(self).ran() },
            ),
    {
        let r: u64 = latest.load(Ordering::Acquire);
        proof {
            self.taken@ = self.taken@.push(GenerationReading { seen: r, rules: self.ran@ });
        }
        r
    }

    /// Runs a rule.
    pub fn run<Rule: FnOnce() -> Vec<ByteDiagnostic>>(&mut self, rule: Rule) -> (r: Vec<
        ByteDiagnostic,
    >)
        requires
            rule.requires(()),
        ensures
            rule.ensures((), r),
            final(self).ran() == old(self).ran() + 1,
            final(self).taken() == old(self).taken(),
    {
        proof {
            self.ran@ = self.ran@ + 1;
        }
        rule()
    }
}

} // verus!
