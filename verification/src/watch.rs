//! The decisions of the configuration watcher: when a changed file is
//! reloaded, and when a reload counts as done. The watcher polls the file's
//! modification time; a reload that fails to load, validate or apply is tried
//! again at the next poll, for the time it stands at then.
use vstd::prelude::*;

verus! {

/// What the watcher learns: a poll's reading of the modification time
/// (nanoseconds since the epoch; `None` where it could not be read), or how the
/// reload for a modification time ended.
#[derive(Debug, Clone, Copy, PartialEq, Eq, Structural)]
pub enum WatchEvent {
    Polled(Option<u128>),
    Reloaded(u128, bool),
}

/// What the watcher does next.
#[derive(Debug, Clone, Copy, PartialEq, Eq, Structural)]
pub enum WatchAction {
    /// Wait for the next poll.
    Wait,
    /// Load, validate and apply the file, which stands at this modification time.
    Reload(u128),
}

/// The watcher's next state (the modification time last applied) and action.
pub open spec fn watch_next(applied: Option<u128>, e: WatchEvent) -> (Option<u128>, WatchAction) {
    match e {
        WatchEvent::Polled(Some(t)) => if applied == Some(t) {
            (applied, WatchAction::Wait)
        } else {
            (applied, WatchAction::Reload(t))
        },
        WatchEvent::Polled(None) => (applied, WatchAction::Wait),
        WatchEvent::Reloaded(t, ok) => if ok {
            (Some(t), WatchAction::Wait)
        } else {
            (applied, WatchAction::Wait)
        },
    }
}

/// One step of the watcher, as `watch_next` says: a readable modification time
/// other than the one last applied asks for a reload; only a reload that
/// succeeded records its time.
pub fn watch_step(applied: Option<u128>, e: WatchEvent) -> (r: (Option<u128>, WatchAction))
    ensures
        r == watch_next(applied, e),
{
    match e {
        WatchEvent::Polled(Some(t)) => {
            let same = match applied {
                Some(a) => a == t,
                None => false,
            };
            if same {
                (applied, WatchAction::Wait)
            } else {
                (applied, WatchAction::Reload(t))
            }
        },
        WatchEvent::Polled(None) => (applied, WatchAction::Wait),
        WatchEvent::Reloaded(t, ok) => if ok {
            (Some(t), WatchAction::Wait)
        } else {
            (applied, WatchAction::Wait)
        },
    }
}

/// A failed reload is retried: after it, the next poll that reads the same
/// modification time asks for the reload again; after a successful one, it
/// does not.
pub proof fn law_failed_reload_is_retried(applied: Option<u128>, t: u128)
    requires
        applied != Some(t),
    ensures
        watch_next(watch_next(applied, WatchEvent::Reloaded(t, false)).0, WatchEvent::Polled(Some(t))).1
            == WatchAction::Reload(t),
        watch_next(watch_next(applied, WatchEvent::Reloaded(t, true)).0, WatchEvent::Polled(Some(t))).1
            == WatchAction::Wait,
{
}

} // verus!
