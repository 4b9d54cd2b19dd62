//! The watch and notify loops, one wake at a time.
//!
//! The caller waits on the server (idle) and hands each wake to the
//! watcher; the watcher answers with the messages to run the notification
//! hook for, and with how long to wait next.

use crate::error::{Error, ErrorView};
use crate::folder::{entries_view, uid_set, unseen, Entry, EntryView};
use crate::range::SeqRange;
use crate::session::{selected, Session, SessionState, SessionView};
use vstd::prelude::*;

verus! {

/// Whether arrivals are reported.
#[derive(Clone, Copy, Debug, PartialEq, Eq, Structural)]
pub enum WatchMode {
    /// Keep the connection alive; report nothing.
    Watch,
    /// Report each new message once.
    Notify,
}

/// What ended a wait on the server.
#[derive(Clone, Copy, Debug, PartialEq, Eq, Structural)]
pub enum Wake {
    /// The keepalive interval elapsed without news.
    Timeout,
    /// The server reported activity in the mailbox.
    Activity,
}

/// What to do after a wake: run the hook once for each of `hooks`, in
/// order, then wait again for up to `idle_for` seconds.
#[derive(Debug)]
pub struct Turn {
    pub hooks: Vec<Entry>,
    pub idle_for: u64,
}

/// The state of a watch or notify loop: the identifiers that were seen.
#[derive(Debug)]
pub struct Watcher {
    mode: WatchMode,
    keepalive: u64,
    seen: SeqRange,
}

pub ghost struct WatcherView {
    pub mode: WatchMode,
    pub keepalive: u64,
    pub seen: Set<int>,
}

impl View for Watcher {
    type V = WatcherView;

    closed spec fn view(&self) -> WatcherView {
        WatcherView { mode: self.mode, keepalive: self.keepalive, seen: self.seen@ }
    }
}

/// The loop starts with the identifiers of the selected mailbox as seen.
pub open spec fn start_outcome(s: SessionView, mode: WatchMode, keepalive: u64) -> Result<
    WatcherView,
    ErrorView,
> {
    match selected(s) {
        Some(i) => Ok(WatcherView { mode, keepalive, seen: uid_set(s.store.folders[i].entries) }),
        None => Err(ErrorView::InvalidState),
    }
}

/// What a wake is owed: the entries to run the hook for, and the
/// identifiers that count as seen afterwards.
///
/// Only activity in notify mode reports anything: the entries of the
/// selected mailbox whose identifier was not seen, after which every
/// identifier of the mailbox counts as seen. A timeout, and any wake in
/// watch mode, reports nothing and leaves the seen identifiers alone.
pub open spec fn wake_outcome(w: WatcherView, s: SessionView, wake: Wake) -> Result<
    (Seq<EntryView>, Set<int>),
    ErrorView,
> {
    match selected(s) {
        None => Err(ErrorView::InvalidState),
        Some(i) => {
            let entries = s.store.folders[i].entries;
            if w.mode == WatchMode::Notify && wake == Wake::Activity {
                Ok((unseen(entries, w.seen), uid_set(entries)))
            } else {
                Ok((Seq::empty(), w.seen))
            }
        },
    }
}

impl Watcher {
    /// Starts a watch loop on the selected mailbox: the connection is kept
    /// alive and nothing is reported.
    pub fn watch(session: &Session, keepalive: u64) -> (r: Result<Watcher, Error>)
        ensures
            match start_outcome(session@, WatchMode::Watch, keepalive) {
                Ok(w) => r is Ok && r->Ok_0@ == w,
                Err(e) => r is Err && r->Err_0@ == e,
            },
    {
        Watcher::start(session, WatchMode::Watch, keepalive)
    }

    /// Starts a notify loop on the selected mailbox: each message that
    /// arrives from now on is reported once.
    pub fn notify(session: &Session, keepalive: u64) -> (r: Result<Watcher, Error>)
        ensures
            match start_outcome(session@, WatchMode::Notify, keepalive) {
                Ok(w) => r is Ok && r->Ok_0@ == w,
                Err(e) => r is Err && r->Err_0@ == e,
            },
    {
        Watcher::start(session, WatchMode::Notify, keepalive)
    }

    /// Starts a loop on the selected mailbox of the session.
    pub fn start(session: &Session, mode: WatchMode, keepalive: u64) -> (r: Result<Watcher, Error>)
        ensures
            match start_outcome(session@, mode, keepalive) {
                Ok(w) => r is Ok && r->Ok_0@ == w,
                Err(e) => r is Err && r->Err_0@ == e,
            },
    {
        match session.snapshot() {
            Ok(seen) => Ok(Watcher { mode, keepalive, seen }),
            Err(e) => Err(e),
        }
    }

    /// The keepalive interval in seconds.
    pub fn keepalive(&self) -> (r: u64)
        ensures
            r == self@.keepalive,
    {
        self.keepalive
    }

    /// Whether the message with this identifier counts as seen.
    pub fn has_seen(&self, uid: u32) -> (b: bool)
        ensures
            b == self@.seen.contains(uid as int),
    {
        self.seen.contains(uid)
    }

    /// Handles one wake.
    ///
    /// The answer lists the entries to run the hook for, one run each, and
    /// tells to wait again for the keepalive interval. A session without a
    /// selected mailbox fails with `InvalidState` and changes nothing.
    pub fn wake(&mut self, session: &Session, wake: Wake) -> (r: Result<Turn, Error>)
        ensures
            match wake_outcome(old(self)@, session@, wake) {
                Ok((hooks, seen)) => r is Ok && entries_view(r->Ok_0.hooks@) == hooks
                    && r->Ok_0.idle_for == old(self)@.keepalive && final(self)@ == (WatcherView {
                    seen,
                    ..old(self)@
                }),
                Err(e) => r is Err && r->Err_0@ == e && final(self)@ == old(self)@,
            },
    {
        let report = match (self.mode, wake) {
            (WatchMode::Notify, Wake::Activity) => true,
            _ => false,
        };
        if report {
            let hooks = match session.arrivals(&self.seen) {
                Ok(hooks) => hooks,
                Err(e) => {
                    return Err(e);
                },
            };
            match session.snapshot() {
                Ok(seen) => {
                    self.seen = seen;
                    Ok(Turn { hooks, idle_for: self.keepalive })
                },
                Err(e) => Err(e),
            }
        } else {
            match session.state() {
                SessionState::Selected(_) => {
                    let hooks: Vec<Entry> = Vec::new();
                    assert(entries_view(hooks@) =~= Seq::<EntryView>::empty());
                    Ok(Turn { hooks, idle_for: self.keepalive })
                },
                _ => Err(Error::InvalidState),
            }
        }
    }
}

} // verus!
