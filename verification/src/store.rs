//! The account on the server as the session sees it: the login that it
//! accepts and its mailboxes.

use crate::flag::{FlagSet, FlagView};
use crate::folder::{
    after_delete, appended, fetched, has_room, lemma_add_flags_idempotent,
    lemma_remove_added_flags, msgs_of, msgs_view, picked, with_flags, Detail, EntryView,
    FlagChange, Folder, FolderView,
};
use crate::msg::{Mbox, Msg, MsgView};
use crate::range::SeqRange;
use vstd::prelude::*;

verus! {

/// The mathematical value of a [`Store`].
pub ghost struct StoreView {
    pub login: Seq<char>,
    pub secret: Seq<char>,
    pub folders: Seq<FolderView>,
}

/// The index of the first mailbox called `name`.
pub open spec fn position(folders: Seq<FolderView>, name: Seq<char>) -> Option<int>
    decreases folders.len(),
{
    if folders.len() == 0 {
        None
    } else {
        match position(folders.drop_last(), name) {
            Some(i) => Some(i),
            None => if folders.last().name == name {
                Some(folders.len() - 1)
            } else {
                None
            },
        }
    }
}

/// A position that is found lies in the sequence and has the name.
pub proof fn lemma_position_in_range(folders: Seq<FolderView>, name: Seq<char>)
    ensures
        position(folders, name) matches Some(i) ==> 0 <= i < folders.len() && folders[i].name
            == name,
    decreases folders.len(),
{
    if folders.len() > 0 {
        lemma_position_in_range(folders.drop_last(), name);
    }
}

/// The store with mailbox `i` replaced.
pub open spec fn with_folder(s: StoreView, i: int, f: FolderView) -> StoreView {
    StoreView { folders: s.folders.update(i, f), ..s }
}

/// The store with the entries of mailbox `i` replaced.
pub open spec fn with_entries(s: StoreView, i: int, entries: Seq<EntryView>) -> StoreView {
    with_folder(s, i, FolderView { entries, ..s.folders[i] })
}

/// The store after a flag operation in mailbox `i`.
pub open spec fn after_flags(
    s: StoreView,
    i: int,
    range: Set<int>,
    given: Set<FlagView>,
    change: FlagChange,
) -> StoreView {
    with_entries(s, i, with_flags(s.folders[i].entries, range, given, change))
}

/// The store after a delete in mailbox `i`.
pub open spec fn after_delete_in(s: StoreView, i: int, range: Set<int>) -> StoreView {
    with_entries(s, i, after_delete(s.folders[i].entries, range))
}

/// The messages that a copy out of mailbox `from` duplicates, in ascending
/// sequence order.
pub open spec fn copies(s: StoreView, from: int, range: Set<int>) -> Seq<MsgView> {
    msgs_of(picked(s.folders[from].entries, range))
}

/// The store after the messages arrive in mailbox `to`.
pub open spec fn after_arrival(s: StoreView, to: int, msgs: Seq<MsgView>) -> StoreView {
    with_folder(s, to, appended(s.folders[to], msgs))
}

/// The store after the addressed messages of mailbox `from` are copied to
/// mailbox `to`.
pub open spec fn after_copy(s: StoreView, from: int, range: Set<int>, to: int) -> StoreView {
    after_arrival(s, to, copies(s, from, range))
}

/// The store after a move: the copy, then the delete at the source.
pub open spec fn after_move(s: StoreView, from: int, range: Set<int>, to: int) -> StoreView {
    after_delete_in(after_copy(s, from, range, to), from, range)
}

/// The account on the server: the login it accepts, and its mailboxes.
#[derive(Debug)]
pub struct Store {
    login: String,
    secret: String,
    folders: Vec<Folder>,
}

pub open spec fn folders_view(v: Seq<Folder>) -> Seq<FolderView> {
    v.map_values(|f: Folder| f@)
}

impl View for Store {
    type V = StoreView;

    closed spec fn view(&self) -> StoreView {
        StoreView { login: self.login@, secret: self.secret@, folders: folders_view(self.folders@) }
    }
}

proof fn lemma_picked_is_fetched(entries: Seq<EntryView>, range: Set<int>)
    ensures
        fetched(entries, range, Detail::Full) == msgs_of(picked(entries, range)),
{
    assert(fetched(entries, range, Detail::Full) =~= msgs_of(picked(entries, range)));
}

impl Store {
    /// A store without mailboxes that accepts this login.
    pub fn new(login: &str, secret: &str) -> (r: Store)
        ensures
            r@ == (StoreView { login: login@, secret: secret@, folders: Seq::empty() }),
    {
        let r = Store {
            login: String::from_str(login),
            secret: String::from_str(secret),
            folders: Vec::new(),
        };
        assert(r@.folders =~= Seq::empty());
        r
    }

    /// Whether the store accepts this login.
    pub fn accepts(&self, login: &String, secret: &String) -> (b: bool)
        ensures
            b == (login@ == self@.login && secret@ == self@.secret),
    {
        *login == self.login && *secret == self.secret
    }

    /// The number of mailboxes.
    pub fn folder_count(&self) -> (n: usize)
        ensures
            n == self@.folders.len(),
    {
        self.folders.len()
    }

    /// The index of the first mailbox called `name`.
    pub fn find(&self, name: &String) -> (r: Option<usize>)
        ensures
            match r {
                Some(i) => position(self@.folders, name@) == Some(i as int) && i
                    < self@.folders.len(),
                None => position(self@.folders, name@) is None,
            },
    {
        let ghost folders = self@.folders;
        let mut found: Option<usize> = None;
        let mut i: usize = 0;
        assert(folders.take(0) == Seq::<FolderView>::empty());
        while i < self.folders.len()
            invariant
                i <= self.folders.len(),
                folders == self@.folders,
                match found {
                    Some(k) => position(folders.take(i as int), name@) == Some(k as int) && k < i,
                    None => position(folders.take(i as int), name@) is None,
                },
            decreases self.folders.len() - i,
        {
            proof {
                assert(folders.take(i + 1).drop_last() == folders.take(i as int));
                assert(folders.take(i + 1).last() == self.folders@[i as int]@);
            }
            if found.is_none() && *self.folders[i].name() == *name {
                found = Some(i);
            }
            i += 1;
        }
        assert(folders.take(i as int) == folders);
        found
    }

    /// Mailbox `i`; `None` where there is no such mailbox.
    pub fn folder(&self, i: usize) -> (r: Option<&Folder>)
        ensures
            match r {
                Some(f) => i < self@.folders.len() && f@ == self@.folders[i as int],
                None => i >= self@.folders.len(),
            },
    {
        if i < self.folders.len() {
            Some(&self.folders[i])
        } else {
            None
        }
    }

    /// The names of the mailboxes, in order.
    pub fn mailboxes(&self) -> (r: Vec<Mbox>)
        ensures
            r@.len() == self@.folders.len(),
            forall|i: int| 0 <= i < r@.len() ==> (#[trigger] r@[i]).name@ == self@.folders[i].name,
    {
        let mut out: Vec<Mbox> = Vec::new();
        let mut i: usize = 0;
        while i < self.folders.len()
            invariant
                i <= self.folders.len(),
                out@.len() == i,
                forall|j: int| 0 <= j < i ==> (#[trigger] out@[j]).name@ == self@.folders[j].name,
            decreases self.folders.len() - i,
        {
            out.push(Mbox { name: self.folders[i].name().clone() });
            i += 1;
        }
        out
    }

    /// Adds an empty mailbox called `name`. Where a mailbox of that name
    /// exists, nothing changes and the result is `false`.
    pub fn add_folder(&mut self, name: &str) -> (added: bool)
        ensures
            added == (position(old(self)@.folders, name@) is None),
            added ==> final(self)@ == (StoreView {
                folders: old(self)@.folders.push(
                    FolderView { name: name@, entries: Seq::empty(), uid_next: 1 },
                ),
                ..old(self)@
            }),
            !added ==> final(self)@ == old(self)@,
    {
        let key = String::from_str(name);
        if self.find(&key).is_some() {
            return false;
        }
        self.folders.push(Folder::new(name));
        assert(self@.folders =~= old(self)@.folders.push(
            FolderView { name: name@, entries: Seq::empty(), uid_next: 1 },
        ));
        true
    }

    /// Adds a mailbox with its contents. Where a mailbox of that name
    /// exists, nothing changes and the result is `false`.
    pub fn insert_folder(&mut self, folder: Folder) -> (added: bool)
        ensures
            added == (position(old(self)@.folders, folder@.name) is None),
            added ==> final(self)@ == (StoreView {
                folders: old(self)@.folders.push(folder@),
                ..old(self)@
            }),
            !added ==> final(self)@ == old(self)@,
    {
        if self.find(folder.name()).is_some() {
            return false;
        }
        self.folders.push(folder);
        assert(self@.folders =~= old(self)@.folders.push(folder@));
        true
    }

    /// Changes the flags of the addressed messages of mailbox `i`.
    pub fn change_flags(&mut self, i: usize, range: &SeqRange, given: &FlagSet, change: FlagChange)
        requires
            i < old(self)@.folders.len(),
        ensures
            final(self)@ == after_flags(old(self)@, i as int, range@, given@, change),
    {
        self.folders[i].change_flags(range, given, change);
        assert(self@.folders =~= after_flags(
            old(self)@,
            i as int,
            range@,
            given@,
            change,
        ).folders);
    }

    /// Deletes the addressed messages of mailbox `i`.
    pub fn delete(&mut self, i: usize, range: &SeqRange)
        requires
            i < old(self)@.folders.len(),
        ensures
            final(self)@ == after_delete_in(old(self)@, i as int, range@),
    {
        self.folders[i].delete(range);
        assert(self@.folders =~= after_delete_in(old(self)@, i as int, range@).folders);
    }

    /// Lets the messages arrive in mailbox `to`, all or none: `false`, with
    /// nothing changed, where the mailbox has no room for all of them.
    pub fn arrive(&mut self, to: usize, msgs: Vec<Msg>) -> (done: bool)
        requires
            to < old(self)@.folders.len(),
        ensures
            done == has_room(old(self)@.folders[to as int], msgs@.len() as int),
            done ==> final(self)@ == after_arrival(old(self)@, to as int, msgs_view(msgs@)),
            !done ==> final(self)@ == old(self)@,
    {
        let done = self.folders[to].append_all(msgs);
        if done {
            assert(self@.folders =~= after_arrival(
                old(self)@,
                to as int,
                msgs_view(msgs@),
            ).folders);
        } else {
            assert(self@.folders =~= old(self)@.folders);
        }
        done
    }

    /// The addressed messages of mailbox `from`, in full, in ascending
    /// sequence order.
    pub fn duplicates(&self, from: usize, range: &SeqRange) -> (r: Vec<Msg>)
        requires
            from < self@.folders.len(),
        ensures
            msgs_view(r@) == copies(self@, from as int, range@),
    {
        proof {
            lemma_picked_is_fetched(self@.folders[from as int].entries, range@);
        }
        self.folders[from].fetch(range, Detail::Full)
    }
}

// ---------------------------------------------------------------------------
// Laws
// ---------------------------------------------------------------------------

/// Adding flags is idempotent: adding the same flags to the same range of
/// a mailbox a second time leaves the store as the first time left it.
pub proof fn lemma_add_flags_twice(s: StoreView, i: int, range: Set<int>, given: Set<FlagView>)
    requires
        0 <= i < s.folders.len(),
    ensures
        after_flags(after_flags(s, i, range, given, FlagChange::Add), i, range, given, FlagChange::Add)
            == after_flags(s, i, range, given, FlagChange::Add),
{
    lemma_add_flags_idempotent(s.folders[i].entries, range, given);
    let once = after_flags(s, i, range, given, FlagChange::Add);
    let twice = after_flags(once, i, range, given, FlagChange::Add);
    assert(twice.folders =~= once.folders);
}

/// Removing the flags that were just added to a range gives back the
/// store as it was, provided that no addressed message had any of the
/// flags before.
pub proof fn lemma_remove_flags_after_add(
    s: StoreView,
    i: int,
    range: Set<int>,
    given: Set<FlagView>,
)
    requires
        0 <= i < s.folders.len(),
        forall|k: int|
            0 <= k < s.folders[i].entries.len() && range.contains(k + 1) ==> (
            #[trigger] s.folders[i].entries[k]).msg.flags.disjoint(given),
    ensures
        after_flags(
            after_flags(s, i, range, given, FlagChange::Add),
            i,
            range,
            given,
            FlagChange::Remove,
        ) == s,
{
    lemma_remove_added_flags(s.folders[i].entries, range, given);
    let added = after_flags(s, i, range, given, FlagChange::Add);
    let back = after_flags(added, i, range, given, FlagChange::Remove);
    assert(back.folders[i] == s.folders[i]);
    assert(back.folders =~= s.folders);
}

} // verus!
