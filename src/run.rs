use vstd::prelude::*;

verus! {

/// The step that the driver performs next.
#[derive(PartialEq, Eq, Structural, Clone, Copy, Debug)]
pub enum Step {
    /// Acquire an adapter, a logical device and its queue.
    AcquireDevice,
    /// Create the input buffer with the payload and the empty output buffer.
    CreateBuffers,
    /// Compile the kernel source into a module.
    CompileKernel,
    /// Build the binding layout, the pipeline and the bind group, and record
    /// the command sequence.
    BindAndRecord,
    /// Submit the recorded sequence to the queue.
    Submit,
    /// Ask for the output buffer to be mapped for reading.
    RequestMap,
    /// Poll the device, waiting for queued work to drain.
    Poll,
    /// Read the completion flag.
    CheckFlag,
    /// Read the mapped output buffer.
    ReadBack,
    /// The run is complete.
    Finished,
    /// A fatal failure ended the run.
    Aborted,
}

/// What the driver reports after performing a step.
#[derive(PartialEq, Eq, Structural, Clone, Copy, Debug)]
pub enum Event {
    /// The step succeeded.
    Done,
    /// The step failed.
    Failed,
    /// A poll returned; `queue_empty` tells whether the queue had drained.
    Polled { queue_empty: bool },
    /// The completion flag was read.
    FlagRead { mapped: bool },
}

/// The transition table of the run. Every failure is fatal, the two end
/// steps never change, and an event that does not belong to the current step
/// leaves it to be performed again.
pub open spec fn next_spec(s: Step, e: Event) -> Step {
    match s {
        Step::Finished => Step::Finished,
        Step::Aborted => Step::Aborted,
        _ => {
            if e == Event::Failed {
                Step::Aborted
            } else {
                match (s, e) {
                    (Step::AcquireDevice, Event::Done) => Step::CreateBuffers,
                    (Step::CreateBuffers, Event::Done) => Step::CompileKernel,
                    (Step::CompileKernel, Event::Done) => Step::BindAndRecord,
                    (Step::BindAndRecord, Event::Done) => Step::Submit,
                    (Step::Submit, Event::Done) => Step::RequestMap,
                    (Step::RequestMap, Event::Done) => Step::Poll,
                    (Step::Poll, Event::Polled { queue_empty }) => {
                        if queue_empty {
                            Step::CheckFlag
                        } else {
                            Step::Poll
                        }
                    },
                    (Step::CheckFlag, Event::FlagRead { mapped }) => {
                        if mapped {
                            Step::ReadBack
                        } else {
                            Step::Poll
                        }
                    },
                    (Step::ReadBack, Event::Done) => Step::Finished,
                    _ => s,
                }
            }
        },
    }
}

/// The step reached from the start after the given events.
pub open spec fn step_after(events: Seq<Event>) -> Step
    decreases events.len(),
{
    if events.len() == 0 {
        Step::AcquireDevice
    } else {
        next_spec(step_after(events.drop_last()), events.last())
    }
}

/// The steps that create device resources or read them.
pub open spec fn touches_resources(s: Step) -> bool {
    match s {
        Step::AcquireDevice | Step::Finished | Step::Aborted => false,
        _ => true,
    }
}

/// The first step of a run.
pub fn first_step() -> (r: Step)
    ensures
        r == step_after(Seq::empty()),
{
    Step::AcquireDevice
}

/// The step that follows `s` once the driver reports `e`.
pub fn next_step(s: Step, e: Event) -> (r: Step)
    ensures
        r == next_spec(s, e),
        e == Event::Failed && s != Step::Finished ==> r == Step::Aborted,
        s == Step::Aborted ==> r == Step::Aborted,
{
    match s {
        Step::Finished => Step::Finished,
        Step::Aborted => Step::Aborted,
        _ => {
            match e {
                Event::Failed => Step::Aborted,
                Event::Done => match s {
                    Step::AcquireDevice => Step::CreateBuffers,
                    Step::CreateBuffers => Step::CompileKernel,
                    Step::CompileKernel => Step::BindAndRecord,
                    Step::BindAndRecord => Step::Submit,
                    Step::Submit => Step::RequestMap,
                    Step::RequestMap => Step::Poll,
                    Step::ReadBack => Step::Finished,
                    _ => s,
                },
                Event::Polled { queue_empty } => match s {
                    Step::Poll => {
                        if queue_empty {
                            Step::CheckFlag
                        } else {
                            Step::Poll
                        }
                    },
                    _ => s,
                },
                Event::FlagRead { mapped } => match s {
                    Step::CheckFlag => {
                        if mapped {
                            Step::ReadBack
                        } else {
                            Step::Poll
                        }
                    },
                    _ => s,
                },
            }
        },
    }
}

/// A failure of the first step ends the run at once: every later step is the
/// abort, and no step that creates or reads a device resource is reached.
pub proof fn lemma_acquire_failure_creates_nothing(events: Seq<Event>)
    requires
        events.len() > 0,
        events[0] == Event::Failed,
    ensures
        forall|k: int| 1 <= k <= events.len() ==> step_after(#[trigger] events.take(k)) == Step::Aborted,
        forall|k: int| 0 <= k <= events.len() ==> !touches_resources(step_after(#[trigger] events.take(k))),
    decreases events.len(),
{
    if events.len() > 1 {
        let prefix = events.drop_last();
        lemma_acquire_failure_creates_nothing(prefix);
        assert forall|k: int| 1 <= k <= events.len() implies step_after(#[trigger] events.take(k)) == Step::Aborted by {
            if k < events.len() {
                assert(prefix.take(k) =~= events.take(k));
            } else {
                assert(events.take(k) =~= events);
                assert(prefix.take(prefix.len() as int) =~= prefix);
                assert(step_after(prefix) == Step::Aborted);
                assert(step_after(events) == next_spec(step_after(prefix), events.last()));
            }
        }
    } else {
        let one = events.take(1);
        assert(one.drop_last() =~= Seq::<Event>::empty());
        assert(one.last() == Event::Failed);
        assert(step_after(one.drop_last()) == Step::AcquireDevice);
        assert(step_after(one) == next_spec(Step::AcquireDevice, Event::Failed));
    }
    assert forall|k: int| 0 <= k <= events.len() implies !touches_resources(step_after(#[trigger] events.take(k))) by {
        if k == 0 {
            assert(events.take(0) =~= Seq::<Event>::empty());
        }
    }
}

/// At event `j` a poll at the poll step reported that the queue had drained.
pub open spec fn drained_at(events: Seq<Event>, j: int) -> bool {
    0 <= j < events.len() && step_after(events.take(j)) == Step::Poll && events[j]
        == Event::Polled { queue_empty: true }
}

/// At event `i` the flag, read at the flag step, was found set.
pub open spec fn mapped_at(events: Seq<Event>, i: int) -> bool {
    0 <= i < events.len() && step_after(events.take(i)) == Step::CheckFlag && events[i]
        == Event::FlagRead { mapped: true }
}

proof fn lemma_prefix_events(events: Seq<Event>, j: int)
    requires
        0 <= j < events.len() - 1,
    ensures
        events.drop_last().take(j) == events.take(j),
        events.drop_last()[j] == events[j],
        drained_at(events.drop_last(), j) == drained_at(events, j),
        mapped_at(events.drop_last(), j) == mapped_at(events, j),
{
    assert(events.drop_last().take(j) =~= events.take(j));
}

/// The flag is read only once a poll has seen the queue drained.
proof fn lemma_flag_checked_after_drain(events: Seq<Event>)
    requires
        step_after(events) == Step::CheckFlag,
    ensures
        exists|j: int| drained_at(events, j),
    decreases events.len(),
{
    let prefix = events.drop_last();
    let prev = step_after(prefix);
    let j = prefix.len() as int;
    assert(prefix =~= events.take(j));
    if prev == Step::CheckFlag {
        lemma_flag_checked_after_drain(prefix);
        let w = choose|w: int| drained_at(prefix, w);
        lemma_prefix_events(events, w);
        assert(drained_at(events, w));
    } else {
        assert(drained_at(events, j));
    }
}

/// The output buffer is read only after the device has drained the queue and
/// the completion flag has then been found set: a run that reaches the
/// readback, or finishes, saw a poll report an empty queue, and after it a
/// reading of the flag that found it set.
pub proof fn lemma_readback_only_after_mapped(events: Seq<Event>)
    requires
        step_after(events) == Step::ReadBack || step_after(events) == Step::Finished,
    ensures
        exists|j: int, i: int| j < i && drained_at(events, j) && mapped_at(events, i),
    decreases events.len(),
{
    let prefix = events.drop_last();
    let prev = step_after(prefix);
    let n = prefix.len() as int;
    assert(prefix =~= events.take(n));
    if prev == Step::ReadBack || prev == Step::Finished {
        lemma_readback_only_after_mapped(prefix);
        let (j, i) = choose|j: int, i: int| j < i && drained_at(prefix, j) && mapped_at(prefix, i);
        lemma_prefix_events(events, j);
        lemma_prefix_events(events, i);
        assert(drained_at(events, j) && mapped_at(events, i));
    } else {
        assert(prev == Step::CheckFlag);
        assert(mapped_at(events, n));
        lemma_flag_checked_after_drain(prefix);
        let j = choose|j: int| drained_at(prefix, j);
        lemma_prefix_events(events, j);
        assert(drained_at(events, j));
    }
}

/// The flag that the map callback sets, and how many times the callback has
/// run.
pub struct CompletionFlag {
    mapped: bool,
    callbacks: u32,
}

impl CompletionFlag {
    /// Whether the flag is set.
    pub closed spec fn mapped(&self) -> bool {
        self.mapped
    }

    /// How many times the map callback has run.
    pub closed spec fn callbacks(&self) -> nat {
        self.callbacks as nat
    }

    /// The flag is set exactly when the callback has run, and it runs at most
    /// once.
    pub closed spec fn wf(&self) -> bool {
        self.callbacks <= 1 && self.mapped == (self.callbacks == 1)
    }

    /// A flag that is not set, before any callback.
    pub fn new() -> (r: CompletionFlag)
        ensures
            r.wf(),
            !r.mapped(),
            r.callbacks() == 0,
    {
        CompletionFlag { mapped: false, callbacks: 0 }
    }

    /// What the map callback does on success: it sets the flag.
    pub fn signal(&mut self)
        requires
            old(self).wf(),
            !old(self).mapped(),
        ensures
            final(self).wf(),
            final(self).mapped(),
            final(self).callbacks() == old(self).callbacks() + 1,
    {
        self.mapped = true;
        self.callbacks = self.callbacks + 1;
    }

    /// Reads the flag.
    pub fn is_mapped(&self) -> (r: bool)
        requires
            self.wf(),
        ensures
            r == self.mapped(),
    {
        self.mapped
    }

    /// A reading of the flag that finds it set comes after exactly one run
    /// of the callback; a reading that finds it clear, before any.
    pub proof fn lemma_set_after_one_callback(&self)
        requires
            self.wf(),
        ensures
            self.mapped() ==> self.callbacks() == 1,
            !self.mapped() ==> self.callbacks() == 0,
    {
    }
}

} // verus!
