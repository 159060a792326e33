//! Readiness of a shared invoker. The invoker is either ready or being
//! waited on by a background task; every step tells the watchers which, and
//! each clone of the invoker waits until it is told `Ready` before asking the
//! invoker itself.
use vstd::prelude::*;

verus! {

/// What the watchers of an invoker are told.
#[derive(Debug, Clone, Copy, PartialEq, Eq)]
pub enum ObserveState {
    Ready,
    Pending,
}

/// Where the wrapped invoker stands: held, ready to be polled, or being
/// waited on by a background task.
#[derive(Debug, Clone, Copy, PartialEq, Eq)]
pub enum Inner {
    Ready,
    Pending,
}

/// What polling the wrapped invoker (or the task waiting on it) gave.
#[derive(Debug, Clone, Copy, PartialEq, Eq)]
pub enum Polled {
    /// Not ready yet.
    Pending,
    /// Ready, or failed getting ready (`false`).
    Ready(bool),
}

/// What the readiness poll does next.
#[derive(Debug, Clone, Copy, PartialEq, Eq)]
pub enum ReadyStep {
    /// Poll the wrapped invoker and pass the outcome to `on_inner_polled`.
    PollInner,
    /// Poll the waiting task and pass the outcome to `on_wait_polled`.
    PollWait,
    /// Spawn a task that waits for the invoker, then poll it
    /// (`on_wait_polled`).
    SpawnWait,
    /// Answer the poll: ready (`Ready(true)`), failed (`Ready(false)`) or
    /// not yet (`Pending`).
    Answer(Polled),
}

/// The readiness of a shared invoker, and what its watchers were told last.
#[derive(Debug, Clone, Copy)]
pub struct ReadyService {
    pub inner: Inner,
    pub observed: ObserveState,
}

/// The watchers are told what the invoker's state is.
pub open spec fn told(s: ReadyService) -> bool {
    (s.inner == Inner::Ready) == (s.observed == ObserveState::Ready)
}

impl ReadyService {
    /// A ready invoker; its watchers are told `Ready`.
    pub fn new() -> (s: ReadyService)
        ensures
            s.inner == Inner::Ready,
            s.observed == ObserveState::Ready,
    {
        ReadyService { inner: Inner::Ready, observed: ObserveState::Ready }
    }

    /// The first step of a readiness poll: poll the invoker when it is held,
    /// the waiting task otherwise.
    pub fn begin_poll_ready(&self) -> (step: ReadyStep)
        ensures
            step == (if self.inner == Inner::Ready {
                ReadyStep::PollInner
            } else {
                ReadyStep::PollWait
            }),
    {
        match self.inner {
            Inner::Ready => ReadyStep::PollInner,
            Inner::Pending => ReadyStep::PollWait,
        }
    }

    /// The held invoker was polled: not ready, it is handed to a waiting
    /// task and the watchers are told `Pending`; otherwise it stays held,
    /// the watchers are told `Ready`, and the poll answers its outcome.
    pub fn on_inner_polled(&mut self, polled: Polled) -> (step: ReadyStep)
        requires
            old(self).inner == Inner::Ready,
        ensures
            told(*final(self)),
            match polled {
                Polled::Pending => final(self).inner == Inner::Pending && step == ReadyStep::SpawnWait,
                Polled::Ready(ok) => final(self).inner == Inner::Ready && step == ReadyStep::Answer(
                    Polled::Ready(ok),
                ),
            },
    {
        match polled {
            Polled::Pending => {
                self.inner = Inner::Pending;
                self.observed = ObserveState::Pending;
                ReadyStep::SpawnWait
            },
            Polled::Ready(ok) => {
                self.inner = Inner::Ready;
                self.observed = ObserveState::Ready;
                ReadyStep::Answer(Polled::Ready(ok))
            },
        }
    }

    /// The waiting task was polled: still waiting, the poll answers
    /// `Pending`; done, the invoker is held again, the watchers are told
    /// `Ready`, and the poll answers the task's outcome.
    pub fn on_wait_polled(&mut self, polled: Polled) -> (step: ReadyStep)
        requires
            old(self).inner == Inner::Pending,
        ensures
            told(*final(self)),
            match polled {
                Polled::Pending => final(self).inner == Inner::Pending && step == ReadyStep::Answer(
                    Polled::Pending,
                ),
                Polled::Ready(ok) => final(self).inner == Inner::Ready && step == ReadyStep::Answer(
                    Polled::Ready(ok),
                ),
            },
    {
        match polled {
            Polled::Pending => {
                self.observed = ObserveState::Pending;
                ReadyStep::Answer(Polled::Pending)
            },
            Polled::Ready(ok) => {
                self.inner = Inner::Ready;
                self.observed = ObserveState::Ready;
                ReadyStep::Answer(Polled::Ready(ok))
            },
        }
    }

    /// Whether a call can be handed to the invoker: only when it is held.
    pub fn can_call(&self) -> (b: bool)
        ensures
            b == (self.inner == Inner::Ready),
    {
        match self.inner {
            Inner::Ready => true,
            Inner::Pending => false,
        }
    }
}

/// What a clone of the invoker does next when asked whether it is ready.
#[derive(Debug, Clone, Copy, PartialEq, Eq)]
pub enum CloneStep {
    /// Ask the shared invoker (through its buffer).
    PollInner,
    /// Start watching for `Ready`, then poll the watch.
    StartWatch,
    /// Poll the watch and pass what it yields to `on_watch_polled`.
    PollWatch,
    /// The watch has not yielded: the clone is not ready yet.
    AnswerPending,
    /// Start the poll over with what the watchers were told last.
    Restart,
}

/// A clone of a shared invoker: whether it is watching for readiness.
#[derive(Debug, Clone, Copy)]
pub struct CloneInvoker {
    pub polling: bool,
}

impl CloneInvoker {
    /// A clone that is not watching.
    pub fn new() -> (c: CloneInvoker)
        ensures
            !c.polling,
    {
        CloneInvoker { polling: false }
    }

    /// The first step of a readiness poll, given what the watchers were told
    /// last: not watching and told `Ready`, ask the invoker; told
    /// `Pending`, start watching; already watching, poll the watch.
    pub fn begin_poll_ready(&mut self, observed: ObserveState) -> (step: CloneStep)
        ensures
            if old(self).polling {
                step == CloneStep::PollWatch && final(self).polling
            } else if observed == ObserveState::Ready {
                step == CloneStep::PollInner && !final(self).polling
            } else {
                step == CloneStep::StartWatch && final(self).polling
            },
    {
        if self.polling {
            return CloneStep::PollWatch;
        }
        match observed {
            ObserveState::Ready => CloneStep::PollInner,
            ObserveState::Pending => {
                self.polling = true;
                CloneStep::StartWatch
            },
        }
    }

    /// The watch was polled (`None` when it has not yielded): nothing yet,
    /// the clone is not ready; a state came, the clone stops watching and
    /// asks the invoker on `Ready`, or starts the poll over on `Pending`.
    pub fn on_watch_polled(&mut self, got: Option<ObserveState>) -> (step: CloneStep)
        requires
            old(self).polling,
        ensures
            match got {
                None => step == CloneStep::AnswerPending && final(self).polling,
                Some(ObserveState::Ready) => step == CloneStep::PollInner && !final(self).polling,
                Some(ObserveState::Pending) => step == CloneStep::Restart && !final(self).polling,
            },
    {
        match got {
            None => CloneStep::AnswerPending,
            Some(ObserveState::Ready) => {
                self.polling = false;
                CloneStep::PollInner
            },
            Some(ObserveState::Pending) => {
                self.polling = false;
                CloneStep::Restart
            },
        }
    }
}

} // verus!
