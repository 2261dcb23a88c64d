//! The values that pass between the planner and its scheduler and notifier backends.

use vstd::prelude::*;

use crate::text::copy_string;

verus! {

/// A desktop notification.
#[derive(Debug, Clone, PartialEq, Eq)]
pub struct Notification {
    pub title: String,
    pub body: String,
}

impl Notification {
    pub fn copied(&self) -> (r: Notification)
        ensures
            r.title@ == self.title@,
            r.body@ == self.body@,
    {
        Notification { title: copy_string(&self.title), body: copy_string(&self.body) }
    }
}

/// Why a scheduler backend failed.
#[derive(Debug, Clone, PartialEq, Eq)]
pub enum SchedulerError {
    Unavailable,
    Operation(String),
}

/// Why a notifier backend failed.
#[derive(Debug, Clone, PartialEq, Eq)]
pub enum NotifyError {
    Unavailable,
    Operation(String),
}

pub open spec fn scheduler_error_text(e: SchedulerError) -> Seq<char> {
    match e {
        SchedulerError::Unavailable => "scheduler backend is unavailable on this platform"@,
        SchedulerError::Operation(m) => "scheduler operation failed: "@ + m@,
    }
}

impl SchedulerError {
    /// The message shown for the error.
    pub fn message(&self) -> (r: String)
        ensures
            r@ == scheduler_error_text(*self),
    {
        match self {
            SchedulerError::Unavailable => "scheduler backend is unavailable on this platform".to_owned(),
            SchedulerError::Operation(m) => {
                let mut out: Vec<char> = Vec::new();
                crate::text::push_str(&mut out, "scheduler operation failed: ");
                crate::text::push_str(&mut out, m.as_str());
                crate::text::string_of(out.as_slice())
            },
        }
    }
}

impl NotifyError {
    /// The message shown for the error.
    pub fn message(&self) -> (r: String)
        ensures
            r@ == match self {
                NotifyError::Unavailable => "notifier backend is unavailable on this platform"@,
                NotifyError::Operation(m) => "notification failed: "@ + m@,
            },
    {
        match self {
            NotifyError::Unavailable => "notifier backend is unavailable on this platform".to_owned(),
            NotifyError::Operation(m) => {
                let mut out: Vec<char> = Vec::new();
                crate::text::push_str(&mut out, "notification failed: ");
                crate::text::push_str(&mut out, m.as_str());
                crate::text::string_of(out.as_slice())
            },
        }
    }
}

/// A scheduler backend for platforms without one: every operation fails as unavailable.
#[derive(Debug, Clone, Copy, Default)]
pub struct UnavailableScheduler;

/// A notifier backend for platforms without one: every send fails as unavailable.
#[derive(Debug, Clone, Copy, Default)]
pub struct UnavailableNotifier;

impl UnavailableScheduler {
    /// The outcome of every scheduler operation here.
    pub fn outcome(&self) -> (r: Result<(), SchedulerError>)
        ensures
            r == Err::<(), SchedulerError>(SchedulerError::Unavailable),
    {
        Err(SchedulerError::Unavailable)
    }
}

impl UnavailableNotifier {
    /// The outcome of every notifier operation here.
    pub fn outcome(&self) -> (r: Result<(), NotifyError>)
        ensures
            r == Err::<(), NotifyError>(NotifyError::Unavailable),
    {
        Err(NotifyError::Unavailable)
    }
}

/// A call a recording scheduler saw.
#[derive(Debug, Clone, PartialEq, Eq)]
pub enum SchedulerCall {
    Add(String),
    Remove(String),
}

/// A notifier that keeps what it was asked to send.
#[derive(Debug, Default)]
pub struct RecordingNotifier {
    sent: Vec<Notification>,
}

impl RecordingNotifier {
    pub closed spec fn spec_sent(&self) -> Seq<Notification> {
        self.sent@
    }

    pub fn new() -> (r: RecordingNotifier)
        ensures
            r.spec_sent() == Seq::<Notification>::empty(),
    {
        RecordingNotifier { sent: Vec::new() }
    }

    /// Always ready: there is no backend to probe.
    pub fn check(&self) -> (r: Result<(), NotifyError>)
        ensures
            r is Ok,
    {
        Ok(())
    }

    /// Keeps a notification; sending always succeeds.
    pub fn notify(&mut self, notification: Notification) -> (r: Result<(), NotifyError>)
        ensures
            r is Ok,
            final(self).spec_sent() == old(self).spec_sent().push(notification),
    {
        self.sent.push(notification);
        Ok(())
    }

    /// The notifications kept so far, in order.
    pub fn notifications(&self) -> (r: Vec<Notification>)
        ensures
            r@.len() == self.spec_sent().len(),
            forall|k: int| 0 <= k < r@.len() ==> (#[trigger] r@[k]).title@ == self.spec_sent()[k].title@
                && r@[k].body@ == self.spec_sent()[k].body@,
    {
        let mut out: Vec<Notification> = Vec::new();
        let mut i: usize = 0;
        while i < self.sent.len()
            invariant
                i <= self.sent@.len(),
                out@.len() == i,
                forall|k: int| 0 <= k < i ==> (#[trigger] out@[k]).title@ == self.sent@[k].title@ && out@[k].body@ == self.sent@[k].body@,
            decreases self.sent.len() - i,
        {
            out.push(self.sent[i].copied());
            i = i + 1;
        }
        out
    }
}

} // verus!
