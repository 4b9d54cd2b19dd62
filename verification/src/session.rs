//! The mailbox session: a state machine over a store.
//!
//! `Disconnected -> Connected -> Selected(mailbox) -> Disconnected`. The
//! operations that address messages need a selected mailbox; in any other
//! state they fail with `InvalidState` and change nothing.

use crate::error::{Error, ErrorView};
use crate::flag::{FlagSet, FlagView};
use crate::folder::{
    all_present, entries_view, fetched, has_room, listing, msgs_view, present, search_set, uid_set,
    unseen, Detail, Entry, FlagChange, Folder, FolderView, Query, QueryView,
};
use crate::msg::{Account, Mbox, Msg, MsgView};
use crate::range::SeqRange;
use crate::store::{
    after_arrival, after_copy, after_delete_in, after_flags, after_move, copies, position, Store,
    StoreView,
};
use vstd::prelude::*;

verus! {

/// Where a session stands. `Selected` holds the index of the selected
/// mailbox in the store.
#[derive(Clone, Copy, Debug, PartialEq, Eq, Structural)]
pub enum SessionState {
    Disconnected,
    Connected,
    Selected(usize),
}

/// The mathematical value of a [`Session`].
pub ghost struct SessionView {
    pub state: SessionState,
    pub store: StoreView,
}

/// A selected mailbox exists.
pub open spec fn session_wf(s: SessionView) -> bool {
    match s.state {
        SessionState::Selected(i) => i < s.store.folders.len(),
        _ => true,
    }
}

/// The index of the selected mailbox.
pub open spec fn selected(s: SessionView) -> Option<int> {
    match s.state {
        SessionState::Selected(i) => Some(i as int),
        _ => None,
    }
}

/// What the server says where a mailbox has no identifier left for a
/// message that should arrive in it.
pub open spec fn no_room_text() -> Seq<char> {
    "mailbox is full"@
}

// ---------------------------------------------------------------------------
// What each operation is owed
// ---------------------------------------------------------------------------

/// Connecting needs a disconnected session and the login that the store
/// accepts.
pub open spec fn connect_outcome(s: SessionView, login: Seq<char>, secret: Seq<char>) -> Result<
    SessionState,
    ErrorView,
> {
    if s.state != SessionState::Disconnected {
        Err(ErrorView::InvalidState)
    } else if !(login == s.store.login && secret == s.store.secret) {
        Err(ErrorView::Connection)
    } else {
        Ok(SessionState::Connected)
    }
}

/// Selecting needs a connected session and an existing mailbox.
pub open spec fn select_outcome(s: SessionView, name: Seq<char>) -> Result<
    SessionState,
    ErrorView,
> {
    if s.state == SessionState::Disconnected {
        Err(ErrorView::InvalidState)
    } else {
        match position(s.store.folders, name) {
            Some(i) => Ok(SessionState::Selected(i as usize)),
            None => Err(ErrorView::NotFound),
        }
    }
}

pub open spec fn mailboxes_outcome(s: SessionView) -> Result<Seq<Seq<char>>, ErrorView> {
    match selected(s) {
        Some(_) => Ok(s.store.folders.map_values(|f: FolderView| f.name)),
        None => Err(ErrorView::InvalidState),
    }
}

pub open spec fn search_outcome(s: SessionView, q: QueryView) -> Result<Set<int>, ErrorView> {
    match selected(s) {
        Some(i) => Ok(search_set(s.store.folders[i].entries, q)),
        None => Err(ErrorView::InvalidState),
    }
}

pub open spec fn fetch_outcome(s: SessionView, range: Set<int>, detail: Detail) -> Result<
    Seq<MsgView>,
    ErrorView,
> {
    match selected(s) {
        Some(i) => Ok(fetched(s.store.folders[i].entries, range, detail)),
        None => Err(ErrorView::InvalidState),
    }
}

pub open spec fn page_outcome(
    s: SessionView,
    query: Option<QueryView>,
    page_size: int,
    page: int,
) -> Result<Seq<MsgView>, ErrorView> {
    match selected(s) {
        Some(i) => Ok(listing(s.store.folders[i].entries, query, page_size, page)),
        None => Err(ErrorView::InvalidState),
    }
}

pub open spec fn fetch_one_outcome(s: SessionView, seq: int) -> Result<MsgView, ErrorView> {
    match selected(s) {
        Some(i) => if present(s.store.folders[i].entries, seq) {
            Ok(s.store.folders[i].entries[seq - 1].msg)
        } else {
            Err(ErrorView::NotFound)
        },
        None => Err(ErrorView::InvalidState),
    }
}

pub open spec fn snapshot_outcome(s: SessionView) -> Result<Set<int>, ErrorView> {
    match selected(s) {
        Some(i) => Ok(uid_set(s.store.folders[i].entries)),
        None => Err(ErrorView::InvalidState),
    }
}

/// A flag operation changes the addressed messages of the selected
/// mailbox; members of the range that address nothing are passed over.
pub open spec fn flags_outcome(
    s: SessionView,
    range: Set<int>,
    given: Set<FlagView>,
    change: FlagChange,
) -> Result<StoreView, ErrorView> {
    match selected(s) {
        Some(i) => Ok(after_flags(s.store, i, range, given, change)),
        None => Err(ErrorView::InvalidState),
    }
}

pub open spec fn delete_outcome(s: SessionView, range: Set<int>) -> Result<StoreView, ErrorView> {
    match selected(s) {
        Some(i) => Ok(after_delete_in(s.store, i, range)),
        None => Err(ErrorView::InvalidState),
    }
}

/// Why a copy or move of the range from mailbox `from` to mailbox `to`
/// cannot be made, if it cannot: a member of the range addresses nothing,
/// or the target has no room for all the copies.
pub open spec fn transfer_refusal(s: StoreView, from: int, range: Set<int>, to: int) -> Option<
    ErrorView,
> {
    if !all_present(s.folders[from].entries, range) {
        Some(ErrorView::NotFound)
    } else if !has_room(s.folders[to], copies(s, from, range).len() as int) {
        Some(ErrorView::Protocol(no_room_text()))
    } else {
        None
    }
}

/// A copy is made in full or not at all.
pub open spec fn copy_outcome(s: SessionView, range: Set<int>, target: Seq<char>) -> Result<
    StoreView,
    ErrorView,
> {
    match selected(s) {
        None => Err(ErrorView::InvalidState),
        Some(from) => match position(s.store.folders, target) {
            None => Err(ErrorView::NotFound),
            Some(to) => match transfer_refusal(s.store, from, range, to) {
                Some(e) => Err(e),
                None => Ok(after_copy(s.store, from, range, to)),
            },
        },
    }
}

/// A move is made in full or not at all.
pub open spec fn move_outcome(s: SessionView, range: Set<int>, target: Seq<char>) -> Result<
    StoreView,
    ErrorView,
> {
    match selected(s) {
        None => Err(ErrorView::InvalidState),
        Some(from) => match position(s.store.folders, target) {
            None => Err(ErrorView::NotFound),
            Some(to) => match transfer_refusal(s.store, from, range, to) {
                Some(e) => Err(e),
                None => Ok(after_move(s.store, from, range, to)),
            },
        },
    }
}

pub open spec fn save_outcome(s: SessionView, target: Seq<char>, msg: MsgView) -> Result<
    StoreView,
    ErrorView,
> {
    match selected(s) {
        None => Err(ErrorView::InvalidState),
        Some(_) => match position(s.store.folders, target) {
            None => Err(ErrorView::NotFound),
            Some(to) => if has_room(s.store.folders[to], 1) {
                Ok(after_arrival(s.store, to, seq![msg]))
            } else {
                Err(ErrorView::Protocol(no_room_text()))
            },
        },
    }
}

/// The session moved to the state it was owed, or failed as it was owed
/// and stayed where it was. The store is untouched either way.
pub open spec fn moved(
    before: SessionView,
    after: SessionView,
    r: Result<(), Error>,
    owed: Result<SessionState, ErrorView>,
) -> bool {
    &&& after.store == before.store
    &&& match owed {
        Ok(state) => r is Ok && after.state == state,
        Err(e) => r is Err && r->Err_0@ == e && after.state == before.state,
    }
}

/// The store changed as it was owed, or the operation failed as it was
/// owed and nothing changed. The state is untouched either way.
pub open spec fn settled(
    before: SessionView,
    after: SessionView,
    r: Result<(), Error>,
    owed: Result<StoreView, ErrorView>,
) -> bool {
    &&& after.state == before.state
    &&& match owed {
        Ok(store) => r is Ok && after.store == store,
        Err(e) => r is Err && r->Err_0@ == e && after.store == before.store,
    }
}

// ---------------------------------------------------------------------------
// The session
// ---------------------------------------------------------------------------

/// A mailbox session over a store.
#[derive(Debug)]
pub struct Session {
    store: Store,
    state: SessionState,
}

impl View for Session {
    type V = SessionView;

    closed spec fn view(&self) -> SessionView {
        SessionView { state: self.state, store: self.store@ }
    }
}

fn no_room() -> (e: Error)
    ensures
        e@ == ErrorView::Protocol(no_room_text()),
{
    Error::Protocol(String::from_str("mailbox is full"))
}

impl Session {
    #[verifier::type_invariant]
    spec fn inv(&self) -> bool {
        session_wf(self@)
    }

    /// A disconnected session over `store`.
    pub fn new(store: Store) -> (r: Session)
        ensures
            r@ == (SessionView { state: SessionState::Disconnected, store: store@ }),
    {
        Session { store, state: SessionState::Disconnected }
    }

    /// Where the session stands.
    pub fn state(&self) -> (r: SessionState)
        ensures
            session_wf(self@),
            r == self@.state,
    {
        proof {
            use_type_invariant(self);
        }
        self.state
    }

    /// The store behind the session.
    pub fn store(&self) -> (r: &Store)
        ensures
            r@ == self@.store,
    {
        &self.store
    }

    /// Ends the session and hands the store back.
    pub fn into_store(self) -> (r: Store)
        ensures
            r@ == self@.store,
    {
        self.store
    }

    fn current(&self) -> (r: Option<(usize, &Folder)>)
        ensures
            session_wf(self@),
            match r {
                Some((i, f)) => selected(self@) == Some(i as int) && i < self@.store.folders.len()
                    && f@ == self@.store.folders[i as int],
                None => selected(self@) is None,
            },
    {
        proof {
            use_type_invariant(self);
        }
        match self.state {
            SessionState::Selected(i) => {
                match self.store.folder(i) {
                    Some(f) => Some((i, f)),
                    None => None,
                }
            },
            _ => None,
        }
    }

    /// Takes the store out of the session, which is left disconnected.
    fn detach(&mut self) -> (store: Store)
        ensures
            store@ == old(self)@.store,
            final(self)@.state == SessionState::Disconnected,
    {
        self.state = SessionState::Disconnected;
        let mut store = Store::new("", "");
        std::mem::swap(&mut self.store, &mut store);
        store
    }

    /// Puts a store and a state into the session.
    fn attach(&mut self, store: Store, state: SessionState)
        requires
            session_wf(SessionView { state, store: store@ }),
        ensures
            final(self)@ == (SessionView { state, store: store@ }),
    {
        self.state = SessionState::Disconnected;
        self.store = store;
        self.state = state;
    }

    /// Opens the session with the account's retrieval login.
    ///
    /// Succeeds on a disconnected session where the store accepts the
    /// login. A session that is open already fails with `InvalidState`, a
    /// refused login with `Connection`; the session then stays as it was.
    pub fn connect(&mut self, account: &Account) -> (r: Result<(), Error>)
        ensures
            moved(
                old(self)@,
                final(self)@,
                r,
                connect_outcome(old(self)@, account.retrieval.login@, account.retrieval.secret@),
            ),
    {
        match self.state {
            SessionState::Disconnected => {
                if self.store.accepts(&account.retrieval.login, &account.retrieval.secret) {
                    self.state = SessionState::Connected;
                    Ok(())
                } else {
                    Err(Error::Connection)
                }
            },
            _ => Err(Error::InvalidState),
        }
    }

    /// Selects the mailbox.
    ///
    /// Succeeds on an open session where the store has a mailbox of that
    /// name. A disconnected session fails with `InvalidState`, an unknown
    /// mailbox with `NotFound`; the session then stays as it was.
    pub fn select(&mut self, mbox: &Mbox) -> (r: Result<(), Error>)
        ensures
            moved(old(self)@, final(self)@, r, select_outcome(old(self)@, mbox.name@)),
    {
        match self.state {
            SessionState::Disconnected => Err(Error::InvalidState),
            _ => {
                match self.store.find(&mbox.name) {
                    Some(i) => {
                        self.state = SessionState::Selected(i);
                        Ok(())
                    },
                    None => Err(Error::NotFound),
                }
            },
        }
    }

    /// Closes the session. Closing a closed session changes nothing.
    pub fn logout(&mut self)
        ensures
            final(self)@ == (SessionView { state: SessionState::Disconnected, ..old(self)@ }),
    {
        self.state = SessionState::Disconnected;
    }

    /// The mailboxes of the account, in the store's order.
    pub fn list_mailboxes(&self) -> (r: Result<Vec<Mbox>, Error>)
        ensures
            match mailboxes_outcome(self@) {
                Ok(names) => r is Ok && r->Ok_0@.map_values(|m: Mbox| m.name@) == names,
                Err(e) => r is Err && r->Err_0@ == e,
            },
    {
        match self.current() {
            Some(_) => {
                let boxes = self.store.mailboxes();
                assert(boxes@.map_values(|m: Mbox| m.name@) =~= self@.store.folders.map_values(
                    |f: FolderView| f.name,
                ));
                Ok(boxes)
            },
            None => Err(Error::InvalidState),
        }
    }

    /// The sequence numbers of the messages of the selected mailbox that
    /// meet the criterion. An empty result is a result.
    pub fn search(&self, query: &Query) -> (r: Result<SeqRange, Error>)
        ensures
            match search_outcome(self@, query@) {
                Ok(set) => r is Ok && r->Ok_0.wf() && r->Ok_0@ == set,
                Err(e) => r is Err && r->Err_0@ == e,
            },
    {
        match self.current() {
            Some((_, folder)) => Ok(folder.search(query)),
            None => Err(Error::InvalidState),
        }
    }

    /// The addressed messages of the selected mailbox, in ascending
    /// sequence order.
    pub fn fetch(&self, range: &SeqRange, detail: Detail) -> (r: Result<Vec<Msg>, Error>)
        ensures
            match fetch_outcome(self@, range@, detail) {
                Ok(msgs) => r is Ok && msgs_view(r->Ok_0@) == msgs,
                Err(e) => r is Err && r->Err_0@ == e,
            },
    {
        match self.current() {
            Some((_, folder)) => Ok(folder.fetch(range, detail)),
            None => Err(Error::InvalidState),
        }
    }

    /// One page of message summaries of the selected mailbox: the headers
    /// of the messages that meet the criterion (of all messages where
    /// there is none), in ascending sequence order; `page` counts from
    /// zero.
    pub fn list(&self, query: Option<&Query>, page_size: usize, page: usize) -> (r: Result<
        Vec<Msg>,
        Error,
    >)
        ensures
            match page_outcome(
                self@,
                match query {
                    Some(q) => Some(q@),
                    None => None,
                },
                page_size as int,
                page as int,
            ) {
                Ok(msgs) => r is Ok && msgs_view(r->Ok_0@) == msgs,
                Err(e) => r is Err && r->Err_0@ == e,
            },
    {
        match self.current() {
            Some((_, folder)) => Ok(folder.list(query, page_size, page)),
            None => Err(Error::InvalidState),
        }
    }

    /// The message with this sequence number, in full; `NotFound` where
    /// the number addresses nothing.
    pub fn fetch_one(&self, seq: u32) -> (r: Result<Msg, Error>)
        ensures
            match fetch_one_outcome(self@, seq as int) {
                Ok(msg) => r is Ok && r->Ok_0@ == msg,
                Err(e) => r is Err && r->Err_0@ == e,
            },
    {
        match self.current() {
            Some((_, folder)) => {
                match folder.get(seq) {
                    Some(msg) => Ok(msg),
                    None => Err(Error::NotFound),
                }
            },
            None => Err(Error::InvalidState),
        }
    }

    /// The identifiers of the messages in the selected mailbox.
    pub fn snapshot(&self) -> (r: Result<SeqRange, Error>)
        ensures
            match snapshot_outcome(self@) {
                Ok(set) => r is Ok && r->Ok_0.wf() && r->Ok_0@ == set,
                Err(e) => r is Err && r->Err_0@ == e,
            },
    {
        match self.current() {
            Some((_, folder)) => Ok(folder.uids()),
            None => Err(Error::InvalidState),
        }
    }

    /// The messages of the selected mailbox whose identifier is not in
    /// `seen`, in sequence order.
    pub fn arrivals(&self, seen: &SeqRange) -> (r: Result<Vec<Entry>, Error>)
        ensures
            match selected(self@) {
                Some(i) => r is Ok && entries_view(r->Ok_0@) == unseen(
                    self@.store.folders[i].entries,
                    seen@,
                ),
                None => r is Err && r->Err_0@ == ErrorView::InvalidState,
            },
    {
        match self.current() {
            Some((_, folder)) => Ok(folder.arrivals(seen)),
            None => Err(Error::InvalidState),
        }
    }

    /// Changes the flags of the addressed messages as `change` says.
    pub fn change_flags(&mut self, range: &SeqRange, flags: &FlagSet, change: FlagChange) -> (r:
        Result<(), Error>)
        ensures
            settled(
                old(self)@,
                final(self)@,
                r,
                flags_outcome(old(self)@, range@, flags@, change),
            ),
    {
        let state = self.state();
        match state {
            SessionState::Selected(i) => {
                let mut store = self.detach();
                store.change_flags(i, range, flags, change);
                self.attach(store, state);
                Ok(())
            },
            _ => Err(Error::InvalidState),
        }
    }

    /// Replaces the flags of each addressed message.
    pub fn set_flags(&mut self, range: &SeqRange, flags: &FlagSet) -> (r: Result<(), Error>)
        ensures
            settled(
                old(self)@,
                final(self)@,
                r,
                flags_outcome(old(self)@, range@, flags@, FlagChange::Replace),
            ),
    {
        self.change_flags(range, flags, FlagChange::Replace)
    }

    /// Adds the flags to each addressed message.
    pub fn add_flags(&mut self, range: &SeqRange, flags: &FlagSet) -> (r: Result<(), Error>)
        ensures
            settled(
                old(self)@,
                final(self)@,
                r,
                flags_outcome(old(self)@, range@, flags@, FlagChange::Add),
            ),
    {
        self.change_flags(range, flags, FlagChange::Add)
    }

    /// Takes the flags away from each addressed message.
    pub fn remove_flags(&mut self, range: &SeqRange, flags: &FlagSet) -> (r: Result<(), Error>)
        ensures
            settled(
                old(self)@,
                final(self)@,
                r,
                flags_outcome(old(self)@, range@, flags@, FlagChange::Remove),
            ),
    {
        self.change_flags(range, flags, FlagChange::Remove)
    }

    /// Flags the addressed messages as deleted and expunges the mailbox.
    pub fn delete(&mut self, range: &SeqRange) -> (r: Result<(), Error>)
        ensures
            settled(old(self)@, final(self)@, r, delete_outcome(old(self)@, range@)),
    {
        let state = self.state();
        match state {
            SessionState::Selected(i) => {
                let mut store = self.detach();
                store.delete(i, range);
                self.attach(store, state);
                Ok(())
            },
            _ => Err(Error::InvalidState),
        }
    }

    /// Checks that the range can be copied or moved to `target`, and
    /// finds the two mailboxes.
    fn plan_transfer(&self, range: &SeqRange, target: &Mbox) -> (r: Result<(usize, usize), Error>)
        ensures
            session_wf(self@),
            match r {
                Ok((from, to)) => selected(self@) == Some(from as int) && position(
                    self@.store.folders,
                    target.name@,
                ) == Some(to as int) && from < self@.store.folders.len() && to
                    < self@.store.folders.len() && transfer_refusal(
                    self@.store,
                    from as int,
                    range@,
                    to as int,
                ) is None,
                Err(e) => copy_outcome(self@, range@, target.name@) == Err::<StoreView, ErrorView>(
                    e@,
                ) && move_outcome(self@, range@, target.name@) == Err::<StoreView, ErrorView>(e@),
            },
    {
        match self.current() {
            None => Err(Error::InvalidState),
            Some((from, source)) => {
                match self.store.find(&target.name) {
                    None => Err(Error::NotFound),
                    Some(to) => {
                        if !source.holds_all(range) {
                            return Err(Error::NotFound);
                        }
                        let count = source.count_in(range);
                        match self.store.folder(to) {
                            Some(dest) => {
                                if dest.has_room_for(count) {
                                    Ok((from, to))
                                } else {
                                    Err(no_room())
                                }
                            },
                            None => Err(Error::NotFound),
                        }
                    },
                }
            },
        }
    }

    /// Copies the addressed messages to the mailbox `target`, in ascending
    /// sequence order.
    ///
    /// All or nothing: where a member of the range addresses no message,
    /// the copy fails with `NotFound` before anything is changed.
    pub fn copy(&mut self, range: &SeqRange, target: &Mbox) -> (r: Result<(), Error>)
        ensures
            settled(old(self)@, final(self)@, r, copy_outcome(old(self)@, range@, target.name@)),
            selected(old(self)@) is Some && !all_present(
                old(self)@.store.folders[selected(old(self)@).unwrap()].entries,
                range@,
            ) ==> r is Err && r->Err_0@ == ErrorView::NotFound && final(self)@ == old(self)@,
    {
        let state = self.state();
        match self.plan_transfer(range, target) {
            Err(e) => Err(e),
            Ok((from, to)) => {
                let mut store = self.detach();
                let msgs = store.duplicates(from, range);
                store.arrive(to, msgs);
                self.attach(store, state);
                Ok(())
            },
        }
    }

    /// Moves the addressed messages to the mailbox `target`: copies them,
    /// then flags them as deleted at the source and expunges it.
    ///
    /// All or nothing: where a member of the range addresses no message,
    /// the move fails with `NotFound` before anything is changed.
    pub fn move_(&mut self, range: &SeqRange, target: &Mbox) -> (r: Result<(), Error>)
        ensures
            settled(old(self)@, final(self)@, r, move_outcome(old(self)@, range@, target.name@)),
            selected(old(self)@) is Some && !all_present(
                old(self)@.store.folders[selected(old(self)@).unwrap()].entries,
                range@,
            ) ==> r is Err && r->Err_0@ == ErrorView::NotFound && final(self)@ == old(self)@,
    {
        let state = self.state();
        match self.plan_transfer(range, target) {
            Err(e) => Err(e),
            Ok((from, to)) => {
                let mut store = self.detach();
                let msgs = store.duplicates(from, range);
                store.arrive(to, msgs);
                store.delete(from, range);
                self.attach(store, state);
                Ok(())
            },
        }
    }

    /// Appends a message to the mailbox `target`.
    pub fn save(&mut self, target: &Mbox, msg: &Msg) -> (r: Result<(), Error>)
        ensures
            settled(old(self)@, final(self)@, r, save_outcome(old(self)@, target.name@, msg@)),
    {
        let state = self.state();
        match state {
            SessionState::Selected(_) => {
                match self.store.find(&target.name) {
                    None => Err(Error::NotFound),
                    Some(to) => {
                        let mut one: Vec<Msg> = Vec::new();
                        one.push(msg.clone());
                        assert(msgs_view(one@) =~= seq![msg@]);
                        let mut store = self.detach();
                        let done = store.arrive(to, one);
                        self.attach(store, state);
                        if done {
                            Ok(())
                        } else {
                            Err(no_room())
                        }
                    },
                }
            },
            _ => Err(Error::InvalidState),
        }
    }
}

// ---------------------------------------------------------------------------
// Laws
// ---------------------------------------------------------------------------

/// Copy and move are all or nothing: where some member of the range
/// addresses no message of the selected mailbox, both are owed the error
/// `NotFound`, whatever the target is.
pub proof fn lemma_transfer_needs_all_present(s: SessionView, range: Set<int>, target: Seq<char>)
    requires
        selected(s) is Some,
        !all_present(s.store.folders[selected(s).unwrap()].entries, range),
    ensures
        copy_outcome(s, range, target) == Err::<StoreView, ErrorView>(ErrorView::NotFound),
        move_outcome(s, range, target) == Err::<StoreView, ErrorView>(ErrorView::NotFound),
{
}

/// An operation that fails mutates nothing: the session after it is the
/// session before it.
pub proof fn lemma_failure_changes_nothing(
    before: SessionView,
    after: SessionView,
    r: Result<(), Error>,
    owed: Result<StoreView, ErrorView>,
)
    requires
        settled(before, after, r, owed),
        owed is Err,
    ensures
        r is Err,
        after == before,
{
}

} // verus!
