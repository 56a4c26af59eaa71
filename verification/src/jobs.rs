//! Job lifecycle: cooperative cancellation and replace-on-new-request
//! semantics.
//!
//! A solver run is owned through a `JobHandle`: a fresh id plus a shared
//! cancellation flag.  The owner holds at most one live job; beginning a new
//! one first requests cancellation of the old one, and messages of a
//! superseded job are recognized by their id and dropped.

use vstd::prelude::*;
use std::sync::Arc;
use std::sync::atomic::AtomicBool;
use std::sync::atomic::Ordering;

verus! {

/// A shared boolean the job owner raises and the solver polls between work
/// units.  Nothing is assumed about the timing of a raise becoming visible;
/// the solver's contracts cover both poll outcomes.
pub struct CancelFlag {
    inner: Arc<AtomicBool>,
}

impl CancelFlag {
    /// A fresh, unraised flag.
    pub fn new() -> CancelFlag {
        CancelFlag { inner: Arc::new(AtomicBool::new(false)) }
    }

    /// Requests cancellation of the run polling this flag.
    pub fn request(&self) {
        self.inner.store(true, Ordering::Relaxed);
    }

    /// Polls the flag; the result depends on what other threads have done,
    /// so nothing is promised of it.
    pub fn is_set(&self) -> bool {
        self.inner.load(Ordering::Relaxed)
    }

    /// A second handle on the same flag, for the worker.
    pub fn share(&self) -> CancelFlag {
        CancelFlag { inner: Arc::clone(&self.inner) }
    }
}

/// Relies on `uuid::Uuid::new_v4` for a random job id; the value is random,
/// so nothing is promised of it.
#[verifier::external_body]
fn fresh_job_id() -> u128 {
    uuid::Uuid::new_v4().as_u128()
}

/// One live solver run, as the owner sees it.
pub struct JobHandle {
    pub id: u128,
    pub flag: CancelFlag,
}

/// The owner's single slot for a live job.
pub struct JobManager {
    active: Option<JobHandle>,
}

impl JobManager {
    /// The id of the live job, if one is live.
    pub closed spec fn active_id(self) -> Option<u128> {
        match self.active {
            Some(h) => Some(h.id),
            None => None,
        }
    }

    /// A manager with no live job.
    pub fn new() -> (m: JobManager)
        ensures
            m.active_id() is None,
    {
        JobManager { active: None }
    }

    /// Begins a new job: requests cancellation of the previous one, drops
    /// its handle, and installs a fresh id and flag.  The returned flag is
    /// shared with the stored handle, so `cancel_active` reaches the worker.
    pub fn begin_job(&mut self) -> (h: JobHandle)
        ensures
            final(self).active_id() == Some(h.id),
    {
        match &self.active {
            Some(old_handle) => {
                old_handle.flag.request();
            },
            None => {},
        }
        let id = fresh_job_id();
        let flag = CancelFlag::new();
        let worker = JobHandle { id, flag: flag.share() };
        self.active = Some(JobHandle { id, flag });
        worker
    }

    /// Whether a message stamped with `id` belongs to the live job; a
    /// superseded job's messages are dropped by this test.
    pub fn accepts(&self, id: u128) -> (b: bool)
        ensures
            b == (self.active_id() == Some(id)),
    {
        match &self.active {
            Some(h) => h.id == id,
            None => false,
        }
    }

    /// Requests cancellation of the live job, if one is live; its handle
    /// stays until a terminal message arrives or a new job replaces it.
    pub fn cancel_active(&self) {
        match &self.active {
            Some(h) => h.flag.request(),
            None => {},
        }
    }

    /// Records that the live job ended: a terminal message with its id was
    /// consumed.  Messages of other jobs leave the slot untouched.
    pub fn finish(&mut self, id: u128)
        ensures
            old(self).active_id() == Some(id) ==> final(self).active_id() is None,
            old(self).active_id() != Some(id) ==> final(self).active_id() == old(self).active_id(),
    {
        let matches_live = self.accepts(id);
        if matches_live {
            self.active = None;
        }
    }
}

} // verus!
