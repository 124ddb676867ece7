use vstd::prelude::*;

verus! {

/// Why the scheduler failed.
#[derive(Copy, Clone, Debug, Eq, PartialEq, Structural)]
pub enum SchedulerError {
    FailedToAllocateProcessId,
    ProcessNotFound,
    NoRunnableProcess,
}

/// What caused a request to switch the running process.
#[derive(Copy, Clone, Debug, Ord, PartialOrd, Eq, PartialEq, Structural)]
pub enum SwitchTrigger {
    Force,
    Yield,
    Timer,
}

/// The slot of each trigger in a `SwitchCondition`.
pub open spec fn trigger_index(trigger: SwitchTrigger) -> usize {
    match trigger {
        SwitchTrigger::Force => 0,
        SwitchTrigger::Yield => 1,
        SwitchTrigger::Timer => 2,
    }
}

impl From<SwitchTrigger> for usize {
    fn from(trigger: SwitchTrigger) -> (r: usize) {
        match trigger {
            SwitchTrigger::Force => 0,
            SwitchTrigger::Yield => 1,
            SwitchTrigger::Timer => 2,
        }
    }
}

impl vstd::std_specs::convert::FromSpecImpl<SwitchTrigger> for usize {
    open spec fn obeys_from_spec() -> bool {
        true
    }

    open spec fn from_spec(v: SwitchTrigger) -> usize {
        trigger_index(v)
    }
}

/// The set of triggers on which a running process may be switched out.
pub struct SwitchCondition(pub [bool; 3]);

impl SwitchCondition {
    /// Whether the condition lets `trigger` switch the process out.
    pub open spec fn accepts(&self, trigger: SwitchTrigger) -> bool {
        self.0@[trigger_index(trigger) as int]
    }

    /// A condition that no trigger satisfies.
    pub fn new() -> (r: Self)
        ensures
            forall|t: SwitchTrigger| !r.accepts(t),
    {
        Self([false, false, false])
    }

    /// The condition extended with `switch_trigger`.
    pub fn or(self, switch_trigger: SwitchTrigger) -> (r: Self)
        ensures
            forall|t: SwitchTrigger| r.accepts(t) <==> (self.accepts(t) || t == switch_trigger),
    {
        let mut this = self;
        let i: usize = usize::from(switch_trigger);
        this.0[i] = true;
        this
    }

    /// Whether `switch_trigger` may switch the process out.
    pub fn matches(&self, switch_trigger: SwitchTrigger) -> (r: bool)
        ensures
            r == self.accepts(switch_trigger),
    {
        let i: usize = usize::from(switch_trigger);
        self.0[i]
    }
}

} // verus!
