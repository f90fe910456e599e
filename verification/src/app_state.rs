//! State kept between scans: the last parsed vault, and the window during
//! which the file watcher skips its rescans after the app's own writes.
use vstd::prelude::*;
use crate::parser::NoteStore;

verus! {

/// The last parse of the vault, kept so that reads need no rescan.
pub struct NoteStoreCache {
    pub store: Option<NoteStore>,
}

impl Default for NoteStoreCache {
    fn default() -> (r: Self)
        ensures
            r.store is None,
    {
        NoteStoreCache { store: None }
    }
}

impl NoteStoreCache {
    /// Replaces the whole cache.
    pub fn set(&mut self, store: NoteStore)
        ensures
            final(self).store == Some(store),
    {
        self.store = Some(store);
    }
}

/// The deadline, on a monotonic clock in nanoseconds, until which the
/// watcher skips its rescans; `None` before any write.
pub struct WriteSuppression {
    pub deadline: Option<u64>,
}

impl Default for WriteSuppression {
    fn default() -> (r: Self)
        ensures
            r.deadline is None,
    {
        WriteSuppression { deadline: None }
    }
}

/// The deadline after suppressing for `dur` at `now`: the later of the old
/// one and `now + dur`.
pub open spec fn extended(deadline: Option<u64>, now: u64, dur: u64) -> Option<u64> {
    match deadline {
        Some(d) => if now + dur > d { Some((now + dur) as u64) } else { Some(d) },
        None => Some((now + dur) as u64),
    }
}

/// Whether `t` falls inside the window.
pub open spec fn suppressed_at(deadline: Option<u64>, t: u64) -> bool {
    match deadline {
        Some(d) => t < d,
        None => false,
    }
}

/// A suppression extends the window and never shortens it: every moment
/// suppressed before is still suppressed, and so is every moment before
/// `now + dur`.
pub proof fn lemma_suppress_never_shortens(deadline: Option<u64>, now: u64, dur: u64, t: u64)
    requires
        now + dur <= u64::MAX,
    ensures
        suppressed_at(deadline, t) ==> suppressed_at(extended(deadline, now, dur), t),
        t < now + dur ==> suppressed_at(extended(deadline, now, dur), t),
{
}

impl WriteSuppression {
    pub fn new() -> (r: Self)
        ensures
            r.deadline is None,
    {
        WriteSuppression { deadline: None }
    }

    /// Suppresses the watcher until at least `now + dur`.
    pub fn suppress(&mut self, now: u64, dur: u64)
        requires
            now + dur <= u64::MAX,
        ensures
            final(self).deadline == extended(old(self).deadline, now, dur),
    {
        let deadline = now + dur;
        match self.deadline {
            Some(d) => {
                if deadline > d {
                    self.deadline = Some(deadline);
                }
            },
            None => {
                self.deadline = Some(deadline);
            },
        }
    }

    /// Whether `now` falls inside the suppression window.
    pub fn is_suppressed(&self, now: u64) -> (b: bool)
        ensures
            b == suppressed_at(self.deadline, now),
    {
        match self.deadline {
            Some(d) => now < d,
            None => false,
        }
    }
}

} // verus!
