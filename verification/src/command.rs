//! One invocation of the client: a single operation on a mailbox, inside a
//! session that is opened for it and closed on every path.

use crate::error::{Error, ErrorView};
use crate::flag::{FlagSet, FlagView};
use crate::folder::{msgs_view, Detail, FlagChange, Query, QueryView};
use crate::msg::{Account, Mbox, Msg, MsgView};
use crate::range::SeqRange;
use crate::session::{
    connect_outcome, copy_outcome, delete_outcome, fetch_one_outcome, fetch_outcome,
    flags_outcome, mailboxes_outcome, move_outcome, page_outcome, save_outcome, search_outcome,
    select_outcome, Session, SessionState, SessionView,
};
use crate::store::StoreView;
use vstd::prelude::*;

verus! {

/// An operation on the selected mailbox.
#[derive(Debug)]
pub enum Operation {
    ListMailboxes,
    /// A page of summaries: criterion, page size, page number from zero.
    List(Option<Query>, usize, usize),
    Search(Query),
    Fetch(SeqRange, Detail),
    Read(u32),
    Copy(SeqRange, Mbox),
    Move(SeqRange, Mbox),
    Delete(SeqRange),
    Flags(SeqRange, FlagSet, FlagChange),
    Save(Mbox, Msg),
}

pub ghost enum OperationView {
    ListMailboxes,
    List(Option<QueryView>, int, int),
    Search(QueryView),
    Fetch(Set<int>, Detail),
    Read(int),
    Copy(Set<int>, Seq<char>),
    Move(Set<int>, Seq<char>),
    Delete(Set<int>),
    Flags(Set<int>, Set<FlagView>, FlagChange),
    Save(Seq<char>, MsgView),
}

impl View for Operation {
    type V = OperationView;

    open spec fn view(&self) -> OperationView {
        match self {
            Operation::ListMailboxes => OperationView::ListMailboxes,
            Operation::List(query, page_size, page) => OperationView::List(
                match query {
                    Some(q) => Some(q@),
                    None => None,
                },
                *page_size as int,
                *page as int,
            ),
            Operation::Search(q) => OperationView::Search(q@),
            Operation::Fetch(range, detail) => OperationView::Fetch(range@, *detail),
            Operation::Read(seq) => OperationView::Read(*seq as int),
            Operation::Copy(range, target) => OperationView::Copy(range@, target.name@),
            Operation::Move(range, target) => OperationView::Move(range@, target.name@),
            Operation::Delete(range) => OperationView::Delete(range@),
            Operation::Flags(range, flags, change) => OperationView::Flags(range@, flags@, *change),
            Operation::Save(target, msg) => OperationView::Save(target.name@, msg@),
        }
    }
}

/// What an operation hands back.
#[derive(Debug)]
pub enum Outcome {
    /// The operation changed the store and has nothing to show.
    Done,
    Mailboxes(Vec<Mbox>),
    Found(SeqRange),
    Messages(Vec<Msg>),
    Message(Msg),
}

pub ghost enum OutcomeView {
    Done,
    Mailboxes(Seq<Seq<char>>),
    Found(Set<int>),
    Messages(Seq<MsgView>),
    Message(MsgView),
}

impl View for Outcome {
    type V = OutcomeView;

    open spec fn view(&self) -> OutcomeView {
        match self {
            Outcome::Done => OutcomeView::Done,
            Outcome::Mailboxes(boxes) => OutcomeView::Mailboxes(
                boxes@.map_values(|m: Mbox| m.name@),
            ),
            Outcome::Found(range) => OutcomeView::Found(range@),
            Outcome::Messages(msgs) => OutcomeView::Messages(msgs_view(msgs@)),
            Outcome::Message(msg) => OutcomeView::Message(msg@),
        }
    }
}

/// The answer of an operation and the store that it leaves.
pub ghost struct Performed {
    pub result: Result<OutcomeView, ErrorView>,
    pub store: StoreView,
}

/// An operation that only reads leaves the store alone.
pub open spec fn read(s: SessionView, result: Result<OutcomeView, ErrorView>) -> Performed {
    Performed { result, store: s.store }
}

/// An operation that writes leaves the store it was owed, or fails and
/// leaves the store alone.
pub open spec fn written(s: SessionView, owed: Result<StoreView, ErrorView>) -> Performed {
    match owed {
        Ok(store) => Performed { result: Ok(OutcomeView::Done), store },
        Err(e) => Performed { result: Err(e), store: s.store },
    }
}

/// What an operation is owed in a session.
pub open spec fn perform_outcome(s: SessionView, op: OperationView) -> Performed {
    match op {
        OperationView::ListMailboxes => read(
            s,
            match mailboxes_outcome(s) {
                Ok(names) => Ok(OutcomeView::Mailboxes(names)),
                Err(e) => Err(e),
            },
        ),
        OperationView::List(query, page_size, page) => read(
            s,
            match page_outcome(s, query, page_size, page) {
                Ok(msgs) => Ok(OutcomeView::Messages(msgs)),
                Err(e) => Err(e),
            },
        ),
        OperationView::Search(q) => read(
            s,
            match search_outcome(s, q) {
                Ok(set) => Ok(OutcomeView::Found(set)),
                Err(e) => Err(e),
            },
        ),
        OperationView::Fetch(range, detail) => read(
            s,
            match fetch_outcome(s, range, detail) {
                Ok(msgs) => Ok(OutcomeView::Messages(msgs)),
                Err(e) => Err(e),
            },
        ),
        OperationView::Read(seq) => read(
            s,
            match fetch_one_outcome(s, seq) {
                Ok(msg) => Ok(OutcomeView::Message(msg)),
                Err(e) => Err(e),
            },
        ),
        OperationView::Copy(range, target) => written(s, copy_outcome(s, range, target)),
        OperationView::Move(range, target) => written(s, move_outcome(s, range, target)),
        OperationView::Delete(range) => written(s, delete_outcome(s, range)),
        OperationView::Flags(range, flags, change) => written(
            s,
            flags_outcome(s, range, flags, change),
        ),
        OperationView::Save(target, msg) => written(s, save_outcome(s, target, msg)),
    }
}

/// What a whole invocation is owed: the session is opened with the login,
/// the mailbox is selected, and the operation is performed; the first of
/// these that fails gives the error, and the steps after it are not
/// taken.
pub open spec fn run_outcome(
    s: SessionView,
    login: Seq<char>,
    secret: Seq<char>,
    mailbox: Seq<char>,
    op: OperationView,
) -> Performed {
    match connect_outcome(s, login, secret) {
        Err(e) => Performed { result: Err(e), store: s.store },
        Ok(connected) => match select_outcome(
            SessionView { state: connected, store: s.store },
            mailbox,
        ) {
            Err(e) => Performed { result: Err(e), store: s.store },
            Ok(chosen) => perform_outcome(SessionView { state: chosen, store: s.store }, op),
        },
    }
}

/// The exec result shows what was owed.
pub open spec fn answers(r: Result<Outcome, Error>, owed: Result<OutcomeView, ErrorView>) -> bool {
    match owed {
        Ok(o) => r is Ok && r->Ok_0@ == o,
        Err(e) => r is Err && r->Err_0@ == e,
    }
}

fn done(r: Result<(), Error>) -> (out: Result<Outcome, Error>)
    ensures
        match r {
            Ok(_) => out is Ok && out->Ok_0@ == OutcomeView::Done,
            Err(e) => out is Err && out->Err_0@ == e@,
        },
{
    match r {
        Ok(_) => Ok(Outcome::Done),
        Err(e) => Err(e),
    }
}

impl Session {
    /// Performs one operation in the session as it stands.
    pub fn perform(&mut self, op: &Operation) -> (r: Result<Outcome, Error>)
        ensures
            final(self)@.state == old(self)@.state,
            final(self)@.store == perform_outcome(old(self)@, op@).store,
            answers(r, perform_outcome(old(self)@, op@).result),
    {
        match op {
            Operation::ListMailboxes => match self.list_mailboxes() {
                Ok(boxes) => Ok(Outcome::Mailboxes(boxes)),
                Err(e) => Err(e),
            },
            Operation::List(query, page_size, page) => match self.list(
                query.as_ref(),
                *page_size,
                *page,
            ) {
                Ok(msgs) => Ok(Outcome::Messages(msgs)),
                Err(e) => Err(e),
            },
            Operation::Search(query) => match self.search(query) {
                Ok(found) => Ok(Outcome::Found(found)),
                Err(e) => Err(e),
            },
            Operation::Fetch(range, detail) => match self.fetch(range, *detail) {
                Ok(msgs) => Ok(Outcome::Messages(msgs)),
                Err(e) => Err(e),
            },
            Operation::Read(seq) => match self.fetch_one(*seq) {
                Ok(msg) => Ok(Outcome::Message(msg)),
                Err(e) => Err(e),
            },
            Operation::Copy(range, target) => done(self.copy(range, target)),
            Operation::Move(range, target) => done(self.move_(range, target)),
            Operation::Delete(range) => done(self.delete(range)),
            Operation::Flags(range, flags, change) => done(self.change_flags(range, flags, *change)),
            Operation::Save(target, msg) => done(self.save(target, msg)),
        }
    }

    /// Runs one invocation: opens the session with the account's login,
    /// selects the mailbox, performs the operation, and closes the
    /// session. The session is closed on every path, whether the
    /// invocation succeeded or where it failed.
    pub fn run(&mut self, account: &Account, mbox: &Mbox, op: &Operation) -> (r: Result<
        Outcome,
        Error,
    >)
        ensures
            final(self)@.state == SessionState::Disconnected,
            final(self)@.store == run_outcome(
                old(self)@,
                account.retrieval.login@,
                account.retrieval.secret@,
                mbox.name@,
                op@,
            ).store,
            answers(
                r,
                run_outcome(
                    old(self)@,
                    account.retrieval.login@,
                    account.retrieval.secret@,
                    mbox.name@,
                    op@,
                ).result,
            ),
    {
        let r = match self.connect(account) {
            Err(e) => Err(e),
            Ok(_) => match self.select(mbox) {
                Err(e) => Err(e),
                Ok(_) => self.perform(op),
            },
        };
        self.logout();
        r
    }
}

} // verus!
