//! From operations to the requests that carry them to the server.
//!
//! The session decides on a mirror of the mailbox; what it accepted is
//! then sent to the server as a short list of requests. This module says
//! which requests, and proves that they do to a store what the operation
//! did.

use crate::command::{perform_outcome, Operation, OperationView};
use crate::flag::{Flag, FlagSet, FlagView};
use crate::folder::{expunged, picked, present, EntryView, FlagChange};
use crate::msg::{Mbox, Msg, MsgView};
use crate::range::{interval, SeqRange};
use crate::session::{selected, session_wf, SessionView};
use crate::store::{
    after_arrival, after_copy, after_flags, lemma_position_in_range, position, with_entries,
    StoreView,
};
use vstd::prelude::*;

verus! {

/// One request to the server, on the selected mailbox.
#[derive(Debug)]
pub enum Request {
    /// Change the flags of the addressed messages.
    Store(SeqRange, FlagSet, FlagChange),
    /// Copy the addressed messages to the mailbox.
    Copy(SeqRange, Mbox),
    /// Remove the messages that are flagged as deleted.
    Expunge,
    /// Append the message to the mailbox.
    Append(Mbox, Msg),
}

pub ghost enum RequestView {
    Store(Set<int>, Set<FlagView>, FlagChange),
    Copy(Set<int>, Seq<char>),
    Expunge,
    Append(Seq<char>, MsgView),
}

impl View for Request {
    type V = RequestView;

    open spec fn view(&self) -> RequestView {
        match self {
            Request::Store(range, flags, change) => RequestView::Store(range@, flags@, *change),
            Request::Copy(range, target) => RequestView::Copy(range@, target.name@),
            Request::Expunge => RequestView::Expunge,
            Request::Append(target, msg) => RequestView::Append(target.name@, msg@),
        }
    }
}

pub open spec fn requests_view(v: Seq<Request>) -> Seq<RequestView> {
    v.map_values(|r: Request| r@)
}

/// What a request does to a store in which mailbox `i` is selected. A
/// request that names a mailbox which the store does not have does
/// nothing.
pub open spec fn effect(s: StoreView, i: int, request: RequestView) -> StoreView {
    match request {
        RequestView::Store(range, flags, change) => after_flags(s, i, range, flags, change),
        RequestView::Copy(range, target) => match position(s.folders, target) {
            Some(to) => after_copy(s, i, range, to),
            None => s,
        },
        RequestView::Expunge => with_entries(s, i, expunged(s.folders[i].entries)),
        RequestView::Append(target, msg) => match position(s.folders, target) {
            Some(to) => after_arrival(s, to, seq![msg]),
            None => s,
        },
    }
}

/// What the requests do to a store, one after the other.
pub open spec fn effects(s: StoreView, i: int, requests: Seq<RequestView>) -> StoreView
    decreases requests.len(),
{
    if requests.len() == 0 {
        s
    } else {
        effect(effects(s, i, requests.drop_last()), i, requests.last())
    }
}

/// The request that changes flags, for the members of the range that
/// address one of `count` messages; no request where there is no such
/// member.
pub open spec fn store_requests(
    range: Set<int>,
    count: int,
    flags: Set<FlagView>,
    change: FlagChange,
) -> Seq<RequestView> {
    let present = range.intersect(interval(1, count));
    if present == Set::<int>::empty() {
        Seq::empty()
    } else {
        seq![RequestView::Store(present, flags, change)]
    }
}

/// The request that copies the range; no request for the empty range.
pub open spec fn copy_requests(range: Set<int>, target: Seq<char>) -> Seq<RequestView> {
    if range == Set::<int>::empty() {
        Seq::empty()
    } else {
        seq![RequestView::Copy(range, target)]
    }
}

/// The requests that carry an operation out on a mailbox of `count`
/// messages. Operations that only read need none.
pub open spec fn planned(op: OperationView, count: int) -> Seq<RequestView> {
    match op {
        OperationView::Flags(range, flags, change) => store_requests(range, count, flags, change),
        OperationView::Delete(range) => store_requests(
            range,
            count,
            set![FlagView::Deleted],
            FlagChange::Add,
        ) + seq![RequestView::Expunge],
        OperationView::Copy(range, target) => copy_requests(range, target),
        OperationView::Move(range, target) => copy_requests(range, target) + store_requests(
            range,
            count,
            set![FlagView::Deleted],
            FlagChange::Add,
        ) + seq![RequestView::Expunge],
        OperationView::Save(target, msg) => seq![RequestView::Append(target, msg)],
        _ => Seq::empty(),
    }
}

fn push_store(
    out: &mut Vec<Request>,
    range: &SeqRange,
    count: u32,
    flags: FlagSet,
    change: FlagChange,
)
    ensures
        requests_view(final(out)@) == requests_view(old(out)@) + store_requests(
            range@,
            count as int,
            flags@,
            change,
        ),
{
    let present = range.limited(count);
    if !present.is_empty() {
        out.push(Request::Store(present, flags, change));
        assert(requests_view(out@) =~= requests_view(old(out)@) + store_requests(
            range@,
            count as int,
            flags@,
            change,
        ));
    } else {
        assert(requests_view(out@) =~= requests_view(old(out)@) + store_requests(
            range@,
            count as int,
            flags@,
            change,
        ));
    }
}

fn push_copy(out: &mut Vec<Request>, range: &SeqRange, target: &Mbox)
    ensures
        requests_view(final(out)@) == requests_view(old(out)@) + copy_requests(
            range@,
            target.name@,
        ),
{
    if !range.is_empty() {
        out.push(Request::Copy(range.clone(), Mbox { name: target.name.clone() }));
    }
    assert(requests_view(out@) =~= requests_view(old(out)@) + copy_requests(range@, target.name@));
}

fn push_expunge(out: &mut Vec<Request>)
    ensures
        requests_view(final(out)@) == requests_view(old(out)@) + seq![RequestView::Expunge],
{
    out.push(Request::Expunge);
    assert(requests_view(out@) =~= requests_view(old(out)@) + seq![RequestView::Expunge]);
}

fn deleted_flag() -> (r: FlagSet)
    ensures
        r@ == set![FlagView::Deleted],
{
    let mut r = FlagSet::new();
    r.insert(Flag::Deleted);
    assert(r@ =~= set![FlagView::Deleted]);
    r
}

/// The requests that carry the operation out on a mailbox of `count`
/// messages, in the order in which they are sent.
pub fn plan(op: &Operation, count: u32) -> (r: Vec<Request>)
    ensures
        requests_view(r@) == planned(op@, count as int),
{
    let mut out: Vec<Request> = Vec::new();
    assert(requests_view(out@) =~= Seq::<RequestView>::empty());
    match op {
        Operation::Flags(range, flags, change) => {
            push_store(&mut out, range, count, flags.clone(), *change);
        },
        Operation::Delete(range) => {
            push_store(&mut out, range, count, deleted_flag(), FlagChange::Add);
            push_expunge(&mut out);
        },
        Operation::Copy(range, target) => {
            push_copy(&mut out, range, target);
        },
        Operation::Move(range, target) => {
            push_copy(&mut out, range, target);
            push_store(&mut out, range, count, deleted_flag(), FlagChange::Add);
            push_expunge(&mut out);
        },
        Operation::Save(target, msg) => {
            out.push(Request::Append(Mbox { name: target.name.clone() }, msg.clone()));
            assert(requests_view(out@) =~= seq![RequestView::Append(target.name@, msg@)]);
        },
        _ => {},
    }
    assert(requests_view(out@) =~= planned(op@, count as int));
    out
}

// ---------------------------------------------------------------------------
// The requests do what the operation did
// ---------------------------------------------------------------------------

proof fn lemma_effects_one(s: StoreView, i: int, request: RequestView)
    ensures
        effects(s, i, seq![request]) == effect(s, i, request),
{
    reveal_with_fuel(effects, 2);
    assert(seq![request].drop_last() =~= Seq::<RequestView>::empty());
    assert(seq![request].last() == request);
}

proof fn lemma_effects_concat(s: StoreView, i: int, a: Seq<RequestView>, b: Seq<RequestView>)
    ensures
        effects(s, i, a + b) == effects(effects(s, i, a), i, b),
    decreases b.len(),
{
    if b.len() == 0 {
        assert(a + b =~= a);
    } else {
        lemma_effects_concat(s, i, a, b.drop_last());
        assert((a + b).drop_last() =~= a + b.drop_last());
        assert((a + b).last() == b.last());
    }
}

/// Changing flags through the request changes them as the operation does:
/// members of the range beyond the messages make no difference.
proof fn lemma_store_requests(
    s: StoreView,
    i: int,
    range: Set<int>,
    flags: Set<FlagView>,
    change: FlagChange,
)
    requires
        0 <= i < s.folders.len(),
    ensures
        effects(
            s,
            i,
            store_requests(range, s.folders[i].entries.len() as int, flags, change),
        ) == after_flags(s, i, range, flags, change),
{
    let entries = s.folders[i].entries;
    let count = entries.len() as int;
    let present = range.intersect(interval(1, count));
    let want = after_flags(s, i, range, flags, change);
    if present == Set::<int>::empty() {
        assert forall|n: int| 1 <= n <= count implies !range.contains(n) by {
            if range.contains(n) {
                assert(present.contains(n));
            }
        }
        assert(want.folders[i].entries =~= entries);
        assert(want.folders =~= s.folders);
    } else {
        lemma_effects_one(s, i, RequestView::Store(present, flags, change));
        let got = after_flags(s, i, present, flags, change);
        assert(got.folders[i].entries =~= want.folders[i].entries);
        assert(got.folders =~= want.folders);
    }
}

/// Copying through the request copies as the operation does; the empty
/// range copies nothing.
proof fn lemma_copy_requests(s: StoreView, i: int, range: Set<int>, target: Seq<char>, to: int)
    requires
        0 <= i < s.folders.len(),
        0 <= to < s.folders.len(),
        position(s.folders, target) == Some(to),
    ensures
        effects(s, i, copy_requests(range, target)) == after_copy(s, i, range, to),
{
    if range == Set::<int>::empty() {
        lemma_nothing_picked(s.folders[i].entries);
        let want = after_copy(s, i, range, to);
        assert(want.folders[to].entries =~= s.folders[to].entries);
        assert(want.folders =~= s.folders);
    } else {
        lemma_effects_one(s, i, RequestView::Copy(range, target));
    }
}

proof fn lemma_nothing_picked(entries: Seq<EntryView>)
    ensures
        picked(entries, Set::<int>::empty()) == Seq::<EntryView>::empty(),
    decreases entries.len(),
{
    if entries.len() > 0 {
        lemma_nothing_picked(entries.drop_last());
    }
}

/// The planned requests refine the operation: on a store in which the
/// session accepts the operation, sending the requests one after the
/// other leaves the store that the operation leaves.
pub proof fn lemma_plan_refines(s: SessionView, op: OperationView)
    requires
        session_wf(s),
        selected(s) is Some,
        perform_outcome(s, op).result is Ok,
    ensures
        effects(
            s.store,
            selected(s).unwrap(),
            planned(op, s.store.folders[selected(s).unwrap()].entries.len() as int),
        ) == perform_outcome(s, op).store,
{
    let i = selected(s).unwrap();
    let count = s.store.folders[i].entries.len() as int;
    let deleted = set![FlagView::Deleted];
    match op {
        OperationView::Flags(range, flags, change) => {
            lemma_store_requests(s.store, i, range, flags, change);
        },
        OperationView::Delete(range) => {
            let marked = after_flags(s.store, i, range, deleted, FlagChange::Add);
            lemma_store_requests(s.store, i, range, deleted, FlagChange::Add);
            lemma_effects_concat(
                s.store,
                i,
                store_requests(range, count, deleted, FlagChange::Add),
                seq![RequestView::Expunge],
            );
            lemma_effects_one(marked, i, RequestView::Expunge);
            let got = effect(marked, i, RequestView::Expunge);
            assert(got.folders =~= perform_outcome(s, op).store.folders);
        },
        OperationView::Copy(range, target) => {
            lemma_position_in_range(s.store.folders, target);
            let to = position(s.store.folders, target).unwrap();
            lemma_copy_requests(s.store, i, range, target, to);
        },
        OperationView::Move(range, target) => {
            lemma_position_in_range(s.store.folders, target);
            let to = position(s.store.folders, target).unwrap();
            let copied = after_copy(s.store, i, range, to);
            lemma_copy_requests(s.store, i, range, target, to);
            let first = copy_requests(range, target);
            let second = store_requests(range, count, deleted, FlagChange::Add);
            let third = seq![RequestView::Expunge];
            lemma_effects_concat(s.store, i, first + second, third);
            lemma_effects_concat(s.store, i, first, second);
            // The copies come after the messages that were there, so the
            // range addresses the same messages as before.
            let grown = copied.folders[i].entries;
            let within = range.intersect(interval(1, count));
            let marked = after_flags(copied, i, range, deleted, FlagChange::Add);
            if within == Set::<int>::empty() {
                assert forall|n: int| 1 <= n <= grown.len() implies !range.contains(n) by {
                    if range.contains(n) {
                        assert(present(s.store.folders[i].entries, n));
                        assert(within.contains(n));
                    }
                }
                assert(marked.folders[i].entries =~= grown);
                assert(marked.folders =~= copied.folders);
            } else {
                lemma_effects_one(copied, i, RequestView::Store(within, deleted, FlagChange::Add));
                let got = after_flags(copied, i, within, deleted, FlagChange::Add);
                assert forall|n: int| 1 <= n <= grown.len() implies (range.contains(n)
                    <==> within.contains(n)) by {
                    if range.contains(n) {
                        assert(present(s.store.folders[i].entries, n));
                    }
                }
                assert(got.folders[i].entries =~= marked.folders[i].entries);
                assert(got.folders =~= marked.folders);
            }
            lemma_effects_one(marked, i, RequestView::Expunge);
            let done = effect(marked, i, RequestView::Expunge);
            assert(done.folders =~= perform_outcome(s, op).store.folders);
        },
        OperationView::Save(target, msg) => {
            lemma_effects_one(s.store, i, RequestView::Append(target, msg));
        },
        _ => {},
    }
}

} // verus!
