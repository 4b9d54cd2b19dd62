//! The contents of one mailbox, and what the session's operations do to
//! them. Messages are addressed by sequence number: the first message has
//! number 1, and a number above the message count is absent.

use crate::error::{Error, ErrorView};
use crate::flag::{flag_of_word, Flag, FlagSet, FlagView};
use crate::msg::{headers_of, Msg, MsgView};
use crate::range::SeqRange;
use crate::text::{chars_of, eq_ignore_case, find_char, find_from, matches_ignore_case, string_of};
use vstd::prelude::*;

verus! {

/// A message in a mailbox, with the identifier that the mailbox gave it.
#[derive(Debug)]
pub struct Entry {
    pub uid: u32,
    pub msg: Msg,
}

pub ghost struct EntryView {
    pub uid: int,
    pub msg: MsgView,
}

impl View for Entry {
    type V = EntryView;

    open spec fn view(&self) -> EntryView {
        EntryView { uid: self.uid as int, msg: self.msg@ }
    }
}

pub open spec fn entries_view(v: Seq<Entry>) -> Seq<EntryView> {
    v.map_values(|e: Entry| e@)
}

pub open spec fn msgs_view(v: Seq<Msg>) -> Seq<MsgView> {
    v.map_values(|m: Msg| m@)
}

/// The mathematical value of a mailbox: its name, its messages in
/// sequence order, and the identifier that the next arrival gets.
pub ghost struct FolderView {
    pub name: Seq<char>,
    pub entries: Seq<EntryView>,
    pub uid_next: int,
}

/// One more than the largest identifier.
pub open spec fn uid_limit() -> int {
    0x1_0000_0000
}

/// Identifiers are positive, ascend with the sequence number, and lie
/// below the next identifier.
pub open spec fn folder_wf(f: FolderView) -> bool {
    &&& 1 <= f.uid_next <= uid_limit()
    &&& forall|i: int| 0 <= i < f.entries.len() ==> 1 <= (#[trigger] f.entries[i]).uid < f.uid_next
    &&& forall|i: int, j: int|
        0 <= i < j < f.entries.len() ==> (#[trigger] f.entries[i]).uid < (#[trigger] f.entries[j]).uid
}

/// How a flag operation combines the flags it is given with those that a
/// message has.
#[derive(Clone, Copy, Debug, PartialEq, Eq, Structural)]
pub enum FlagChange {
    /// Replace the flags of the message.
    Replace,
    /// Add to the flags of the message.
    Add,
    /// Take away from the flags of the message.
    Remove,
}

/// How much of a message a fetch retrieves.
#[derive(Clone, Copy, Debug, PartialEq, Eq, Structural)]
pub enum Detail {
    /// Headers and flags only.
    Headers,
    /// Headers, flags, bodies and attachments.
    Full,
}

// ---------------------------------------------------------------------------
// What the operations mean
// ---------------------------------------------------------------------------

/// The sequence number `seq` addresses a message of the mailbox.
pub open spec fn present(entries: Seq<EntryView>, seq: int) -> bool {
    1 <= seq <= entries.len()
}

/// Every member of the range addresses a message.
pub open spec fn all_present(entries: Seq<EntryView>, range: Set<int>) -> bool {
    forall|seq: int| range.contains(seq) ==> present(entries, seq)
}

/// The entries that the range addresses, in ascending sequence order.
pub open spec fn picked(entries: Seq<EntryView>, range: Set<int>) -> Seq<EntryView>
    decreases entries.len(),
{
    if entries.len() == 0 {
        Seq::empty()
    } else {
        let front = picked(entries.drop_last(), range);
        if range.contains(entries.len() as int) {
            front.push(entries.last())
        } else {
            front
        }
    }
}

/// A message as a fetch of this detail shows it.
pub open spec fn shown(m: MsgView, detail: Detail) -> MsgView {
    match detail {
        Detail::Headers => headers_of(m),
        Detail::Full => m,
    }
}

/// What a fetch returns: the addressed messages in ascending sequence
/// order, whatever the order of the range's text was. Members of the range
/// that address nothing are passed over.
pub open spec fn fetched(entries: Seq<EntryView>, range: Set<int>, detail: Detail) -> Seq<MsgView> {
    picked(entries, range).map_values(|e: EntryView| shown(e.msg, detail))
}

/// The flags of a message after a flag operation.
pub open spec fn changed_flags(
    had: Set<FlagView>,
    given: Set<FlagView>,
    change: FlagChange,
) -> Set<FlagView> {
    match change {
        FlagChange::Replace => given,
        FlagChange::Add => had.union(given),
        FlagChange::Remove => had.difference(given),
    }
}

/// The entries after a flag operation on the range: each addressed message
/// has its flags changed, and nothing else differs.
pub open spec fn with_flags(
    entries: Seq<EntryView>,
    range: Set<int>,
    given: Set<FlagView>,
    change: FlagChange,
) -> Seq<EntryView> {
    Seq::new(
        entries.len(),
        |i: int|
            if range.contains(i + 1) {
                EntryView {
                    uid: entries[i].uid,
                    msg: MsgView {
                        flags: changed_flags(entries[i].msg.flags, given, change),
                        ..entries[i].msg
                    },
                }
            } else {
                entries[i]
            },
    )
}

/// The entries that an expunge leaves: those not flagged as deleted, in
/// their order.
pub open spec fn expunged(entries: Seq<EntryView>) -> Seq<EntryView>
    decreases entries.len(),
{
    if entries.len() == 0 {
        Seq::empty()
    } else {
        let front = expunged(entries.drop_last());
        if entries.last().msg.flags.contains(FlagView::Deleted) {
            front
        } else {
            front.push(entries.last())
        }
    }
}

/// The entries after a delete of the range: the addressed messages are
/// flagged as deleted, then the mailbox is expunged.
pub open spec fn after_delete(entries: Seq<EntryView>, range: Set<int>) -> Seq<EntryView> {
    expunged(with_flags(entries, range, set![FlagView::Deleted], FlagChange::Add))
}

/// The mailbox after the messages arrive, in this order: each gets the
/// next free identifier.
pub open spec fn appended(f: FolderView, msgs: Seq<MsgView>) -> FolderView {
    FolderView {
        name: f.name,
        entries: f.entries + Seq::new(
            msgs.len(),
            |i: int| EntryView { uid: f.uid_next + i, msg: msgs[i] },
        ),
        uid_next: f.uid_next + msgs.len(),
    }
}

/// There are identifiers left for `count` more messages.
pub open spec fn has_room(f: FolderView, count: int) -> bool {
    f.uid_next + count <= uid_limit()
}

/// The messages of a sequence of entries.
pub open spec fn msgs_of(entries: Seq<EntryView>) -> Seq<MsgView> {
    entries.map_values(|e: EntryView| e.msg)
}

/// The identifiers of the messages in the mailbox.
pub open spec fn uid_set(entries: Seq<EntryView>) -> Set<int> {
    Set::new(|u: int| exists|i: int| 0 <= i < entries.len() && (#[trigger] entries[i]).uid == u)
}

/// Wherever `needle` occurs in `text`, up to the case of ASCII letters.
pub open spec fn occurs_at(text: Seq<char>, needle: Seq<char>, i: int) -> bool {
    0 <= i <= text.len() - needle.len() && eq_ignore_case(
        text.subrange(i, i + needle.len()),
        needle,
    )
}

/// `needle` occurs somewhere in `text`, up to the case of ASCII letters.
pub open spec fn contains_text(text: Seq<char>, needle: Seq<char>) -> bool {
    exists|i: int| occurs_at(text, needle, i)
}

/// A search criterion.
#[derive(Debug)]
pub enum Query {
    /// Every message.
    All,
    /// Messages that have the flag.
    With(Flag),
    /// Messages that do not have the flag.
    Without(Flag),
    /// Messages whose subject contains the text.
    Subject(String),
    /// Messages whose sender's name or address contains the text.
    From(String),
}

pub ghost enum QueryView {
    All,
    With(FlagView),
    Without(FlagView),
    Subject(Seq<char>),
    From(Seq<char>),
}

impl View for Query {
    type V = QueryView;

    open spec fn view(&self) -> QueryView {
        match self {
            Query::All => QueryView::All,
            Query::With(f) => QueryView::With(f@),
            Query::Without(f) => QueryView::Without(f@),
            Query::Subject(s) => QueryView::Subject(s@),
            Query::From(s) => QueryView::From(s@),
        }
    }
}

/// Whether the message meets the criterion.
pub open spec fn query_matches(q: QueryView, m: MsgView) -> bool {
    match q {
        QueryView::All => true,
        QueryView::With(f) => m.flags.contains(f),
        QueryView::Without(f) => !m.flags.contains(f),
        QueryView::Subject(s) => contains_text(m.subject, s),
        QueryView::From(s) => contains_text(m.from.name, s) || contains_text(m.from.email, s),
    }
}

/// The sequence numbers of the messages that meet the criterion.
pub open spec fn search_set(entries: Seq<EntryView>, q: QueryView) -> Set<int> {
    Set::new(|seq: int| present(entries, seq) && query_matches(q, entries[seq - 1].msg))
}

/// Page number `page`, counted from zero, of `items` cut into pages of
/// `page_size`. A page past the end is empty, and so is every page of
/// size zero.
pub open spec fn page_of(items: Seq<MsgView>, page_size: int, page: int) -> Seq<MsgView> {
    let start = page * page_size;
    if page_size <= 0 || start >= items.len() {
        Seq::empty()
    } else if start + page_size >= items.len() {
        items.subrange(start, items.len() as int)
    } else {
        items.subrange(start, start + page_size)
    }
}

/// The sequence numbers that a listing shows: those of the messages that
/// meet the criterion, or of all messages where there is none.
pub open spec fn listed_set(entries: Seq<EntryView>, query: Option<QueryView>) -> Set<int> {
    match query {
        Some(q) => search_set(entries, q),
        None => search_set(entries, QueryView::All),
    }
}

/// One page of a listing: the headers of the listed messages, in ascending
/// sequence order, cut into pages.
pub open spec fn listing(
    entries: Seq<EntryView>,
    query: Option<QueryView>,
    page_size: int,
    page: int,
) -> Seq<MsgView> {
    page_of(fetched(entries, listed_set(entries, query), Detail::Headers), page_size, page)
}

/// The entries whose identifier is not in `seen`, in sequence order: the
/// arrivals since a snapshot `seen` was taken. Only the identifier counts;
/// a message that was seen stays seen when its flags change.
pub open spec fn unseen(entries: Seq<EntryView>, seen: Set<int>) -> Seq<EntryView>
    decreases entries.len(),
{
    if entries.len() == 0 {
        Seq::empty()
    } else {
        let front = unseen(entries.drop_last(), seen);
        if seen.contains(entries.last().uid) {
            front
        } else {
            front.push(entries.last())
        }
    }
}

// ---------------------------------------------------------------------------
// The mailbox
// ---------------------------------------------------------------------------

/// A mailbox: a named folder of messages in sequence order.
#[derive(Debug)]
pub struct Folder {
    name: String,
    entries: Vec<Entry>,
    uid_next: u64,
}

impl View for Folder {
    type V = FolderView;

    closed spec fn view(&self) -> FolderView {
        FolderView {
            name: self.name@,
            entries: entries_view(self.entries@),
            uid_next: self.uid_next as int,
        }
    }
}

/// In a well-formed mailbox the `i`-th message has an identifier of at
/// least `i + 1`, so the message count stays below the identifier limit.
pub proof fn lemma_uid_at_least_position(f: FolderView, i: int)
    requires
        folder_wf(f),
        0 <= i < f.entries.len(),
    ensures
        f.entries[i].uid >= i + 1,
    decreases i,
{
    if i > 0 {
        lemma_uid_at_least_position(f, i - 1);
    }
}

pub proof fn lemma_count_bounded(f: FolderView)
    requires
        folder_wf(f),
    ensures
        f.entries.len() < f.uid_next,
{
    if f.entries.len() > 0 {
        lemma_uid_at_least_position(f, f.entries.len() - 1);
    }
}

impl Folder {
    #[verifier::type_invariant]
    spec fn inv(&self) -> bool {
        folder_wf(self@)
    }

    /// An empty mailbox called `name`.
    pub fn new(name: &str) -> (r: Folder)
        ensures
            folder_wf(r@),
            r@ == (FolderView { name: name@, entries: Seq::empty(), uid_next: 1 }),
    {
        let r = Folder { name: String::from_str(name), entries: Vec::new(), uid_next: 1 };
        assert(r@.entries =~= Seq::empty());
        r
    }

    /// A mailbox with these messages, for contents that come from
    /// elsewhere. The identifiers must be positive, ascend strictly and lie
    /// below `uid_next`, which must not pass the identifier limit;
    /// otherwise there is no such mailbox and the result is `None`.
    pub fn restore(name: &str, entries: Vec<Entry>, uid_next: u64) -> (r: Option<Folder>)
        ensures
            r is Some <==> folder_wf(
                FolderView {
                    name: name@,
                    entries: entries_view(entries@),
                    uid_next: uid_next as int,
                },
            ),
            r matches Some(f) ==> f@ == (FolderView {
                name: name@,
                entries: entries_view(entries@),
                uid_next: uid_next as int,
            }),
    {
        let ghost view = entries_view(entries@);
        if uid_next < 1 || uid_next > 0x1_0000_0000 {
            return None;
        }
        let mut i: usize = 0;
        while i < entries.len()
            invariant
                i <= entries.len(),
                view == entries_view(entries@),
                1 <= uid_next <= uid_limit(),
                forall|a: int| 0 <= a < i ==> 1 <= (#[trigger] view[a]).uid < uid_next,
                forall|a: int, b: int|
                    0 <= a < b < i ==> (#[trigger] view[a]).uid < (#[trigger] view[b]).uid,
            decreases entries.len() - i,
        {
            let uid = entries[i].uid;
            assert(view[i as int].uid == uid);
            if uid < 1 || (uid as u64) >= uid_next {
                return None;
            }
            if i > 0 {
                let before = entries[i - 1].uid;
                assert(view[i - 1].uid == before);
                if before >= uid {
                    return None;
                }
                assert forall|a: int, b: int| 0 <= a < b < i + 1 implies (#[trigger] view[a]).uid < (
                #[trigger] view[b]).uid by {
                    if b == i && a < i - 1 {
                        assert(view[a].uid < view[i - 1].uid);
                    }
                }
            }
            i += 1;
        }
        Some(Folder { name: String::from_str(name), entries, uid_next })
    }

    /// The number of messages.
    pub fn count(&self) -> (n: u32)
        ensures
            folder_wf(self@),
            n == self@.entries.len(),
    {
        proof {
            use_type_invariant(self);
            lemma_count_bounded(self@);
        }
        self.entries.len() as u32
    }

    /// The name of the mailbox.
    pub fn name(&self) -> (r: &String)
        ensures
            r@ == self@.name,
    {
        &self.name
    }

    /// Changes the flags of the addressed messages.
    pub fn change_flags(&mut self, range: &SeqRange, given: &FlagSet, change: FlagChange)
        ensures
            folder_wf(final(self)@),
            final(self)@ == (FolderView {
                entries: with_flags(old(self)@.entries, range@, given@, change),
                ..old(self)@
            }),
    {
        proof {
            use_type_invariant(&*self);
            lemma_count_bounded(self@);
        }
        let ghost before = self@.entries;
        let mut taken: Vec<Entry> = Vec::new();
        std::mem::swap(&mut self.entries, &mut taken);
        let ghost want = with_flags(before, range@, given@, change);
        let mut out: Vec<Entry> = Vec::new();
        let mut pos: u32 = 0;
        for entry in it: taken
            invariant
                entries_view(it.seq()) == before,
                before.len() <= u32::MAX,
                pos == it.index(),
                want == with_flags(before, range@, given@, change),
                out@.len() == it.index(),
                forall|j: int| 0 <= j < it.index() ==> (#[trigger] out@[j])@ == want[j],
        {
            assert(entry@ == before[pos as int]);
            pos = pos + 1;
            let mut entry = entry;
            if range.contains(pos) {
                match change {
                    FlagChange::Replace => {
                        entry.msg.flags = given.clone();
                    },
                    FlagChange::Add => {
                        entry.msg.flags = entry.msg.flags.union(given);
                    },
                    FlagChange::Remove => {
                        entry.msg.flags = entry.msg.flags.difference(given);
                    },
                }
            }
            assert(entry@ == want[pos - 1]);
            out.push(entry);
        }
        assert(entries_view(out@) =~= want);
        self.entries = out;
    }
}

/// Whether `needle` occurs in `text`, up to the case of ASCII letters.
pub fn text_contains(text: &str, needle: &str) -> (b: bool)
    ensures
        b == contains_text(text@, needle@),
{
    let t = chars_of(text);
    let nd = chars_of(needle);
    if nd.len() > t.len() {
        return false;
    }
    let last = t.len() - nd.len();
    let mut i: usize = 0;
    while i <= last
        invariant
            i <= last + 1,
            last == t.len() - nd.len(),
            t@ == text@,
            nd@ == needle@,
            forall|j: int| 0 <= j < i ==> !occurs_at(text@, needle@, j),
        decreases last + 1 - i,
    {
        if matches_ignore_case(&t, i, i + nd.len(), &nd) {
            assert(occurs_at(text@, needle@, i as int));
            return true;
        }
        i += 1;
    }
    false
}

/// The criterion that a text denotes, if any.
///
/// The text is a keyword, matched without regard to case, and after one
/// blank its argument: `all` (alone); `with` or `without` and a flag name;
/// `subject` or `from` and the text to look for, which may be empty and
/// may hold blanks.
pub open spec fn query_of_text(text: Seq<char>) -> Option<QueryView> {
    let k = find_char(text, ' ');
    if 0 <= k < text.len() {
        let word = text.take(k);
        let rest = text.skip(k + 1);
        if eq_ignore_case(word, "with"@) {
            Some(QueryView::With(flag_of_word(rest)))
        } else if eq_ignore_case(word, "without"@) {
            Some(QueryView::Without(flag_of_word(rest)))
        } else if eq_ignore_case(word, "subject"@) {
            Some(QueryView::Subject(rest))
        } else if eq_ignore_case(word, "from"@) {
            Some(QueryView::From(rest))
        } else {
            None
        }
    } else if eq_ignore_case(text, "all"@) {
        Some(QueryView::All)
    } else {
        None
    }
}

/// Parses a search criterion such as `subject weekly report`. A text
/// that denotes no criterion is a parse error that carries the text.
pub fn parse_query(text: &str) -> (r: Result<Query, Error>)
    ensures
        match query_of_text(text@) {
            Some(q) => r is Ok && r->Ok_0@ == q,
            None => r is Err && r->Err_0@ == ErrorView::Parse(text@),
        },
{
    let chars = chars_of(text);
    let n = chars.len();
    let k = find_from(&chars, 0, n, ' ');
    assert(chars@.subrange(0, n as int) == chars@);
    if k < n {
        assert(chars@.take(k as int) == chars@.subrange(0, k as int));
        assert(chars@.skip(k + 1) == chars@.subrange(k + 1, n as int));
        let rest = string_of(&chars, k + 1, n);
        if matches_ignore_case(&chars, 0, k, &chars_of("with")) {
            Ok(Query::With(Flag::from_name(rest.as_str())))
        } else if matches_ignore_case(&chars, 0, k, &chars_of("without")) {
            Ok(Query::Without(Flag::from_name(rest.as_str())))
        } else if matches_ignore_case(&chars, 0, k, &chars_of("subject")) {
            Ok(Query::Subject(rest))
        } else if matches_ignore_case(&chars, 0, k, &chars_of("from")) {
            Ok(Query::From(rest))
        } else {
            Err(Error::Parse(String::from_str(text)))
        }
    } else if matches_ignore_case(&chars, 0, n, &chars_of("all")) {
        Ok(Query::All)
    } else {
        Err(Error::Parse(String::from_str(text)))
    }
}

/// Whether the message meets the criterion.
pub fn matches_query(query: &Query, msg: &Msg) -> (b: bool)
    ensures
        b == query_matches(query@, msg@),
{
    match query {
        Query::All => true,
        Query::With(f) => msg.flags.contains(f),
        Query::Without(f) => !msg.flags.contains(f),
        Query::Subject(s) => text_contains(msg.subject.as_str(), s.as_str()),
        Query::From(s) => text_contains(msg.from.name.as_str(), s.as_str()) || text_contains(
            msg.from.email.as_str(),
            s.as_str(),
        ),
    }
}

fn show(msg: &Msg, detail: Detail) -> (r: Msg)
    ensures
        r@ == shown(msg@, detail),
{
    match detail {
        Detail::Headers => msg.headers_only(),
        Detail::Full => msg.clone(),
    }
}

impl Folder {
    /// Whether there are identifiers left for `count` more messages.
    pub fn has_room_for(&self, count: usize) -> (b: bool)
        ensures
            folder_wf(self@),
            b == has_room(self@, count as int),
    {
        proof {
            use_type_invariant(self);
        }
        count <= 0xffff_ffff && self.uid_next + (count as u64) <= 0x1_0000_0000
    }

    /// How many messages the range addresses.
    pub fn count_in(&self, range: &SeqRange) -> (n: usize)
        ensures
            folder_wf(self@),
            n == picked(self@.entries, range@).len(),
    {
        let total = self.count();
        let ghost entries = self@.entries;
        let mut n: usize = 0;
        let mut i: u32 = 0;
        assert(entries.take(0) == Seq::<EntryView>::empty());
        while i < total
            invariant
                i <= total == entries.len(),
                n <= i,
                n == picked(entries.take(i as int), range@).len(),
            decreases total - i,
        {
            proof {
                assert(entries.take(i + 1).drop_last() == entries.take(i as int));
            }
            if range.contains(i + 1) {
                n += 1;
            }
            i += 1;
        }
        assert(entries.take(total as int) == entries);
        n
    }

    /// One page of summaries: the headers of the messages that meet the
    /// criterion (of all messages where there is none), in ascending
    /// sequence order, cut into pages of `page_size`; `page` counts from
    /// zero.
    pub fn list(&self, query: Option<&Query>, page_size: usize, page: usize) -> (r: Vec<Msg>)
        ensures
            folder_wf(self@),
            msgs_view(r@) == listing(
                self@.entries,
                match query {
                    Some(q) => Some(q@),
                    None => None,
                },
                page_size as int,
                page as int,
            ),
    {
        let found = match query {
            Some(q) => self.search(q),
            None => self.search(&Query::All),
        };
        let mut msgs = self.fetch(&found, Detail::Headers);
        let ghost items = msgs_view(msgs@);
        let total = msgs.len();
        let start = match page.checked_mul(page_size) {
            Some(start) => start,
            None => {
                assert(page * page_size > usize::MAX);
                assert(page_size > 0) by (nonlinear_arith)
                    requires
                        page * page_size > 0,
                        page >= 0,
                        page_size >= 0,
                ;
                let none: Vec<Msg> = Vec::new();
                assert(msgs_view(none@) =~= Seq::<MsgView>::empty());
                return none;
            },
        };
        if page_size == 0 || start >= total {
            let none: Vec<Msg> = Vec::new();
            assert(msgs_view(none@) =~= Seq::<MsgView>::empty());
            return none;
        }
        let mut shown = msgs.split_off(start);
        assert(msgs_view(shown@) =~= items.subrange(start as int, total as int));
        if page_size < total - start {
            let ghost before = shown@;
            shown.truncate(page_size);
            assert(msgs_view(shown@) =~= items.subrange(start as int, start + page_size));
        }
        shown
    }

    /// The messages whose identifier is not in `seen`, in sequence order.
    pub fn arrivals(&self, seen: &SeqRange) -> (r: Vec<Entry>)
        ensures
            folder_wf(self@),
            entries_view(r@) == unseen(self@.entries, seen@),
    {
        let total = self.count();
        let ghost entries = self@.entries;
        let mut out: Vec<Entry> = Vec::new();
        let mut i: u32 = 0;
        assert(entries.take(0) == Seq::<EntryView>::empty());
        assert(entries_view(out@) =~= unseen(entries.take(0), seen@));
        while i < total
            invariant
                i <= total == entries.len(),
                entries == self@.entries,
                entries_view(out@) == unseen(entries.take(i as int), seen@),
            decreases total - i,
        {
            let ghost before = out@;
            let entry = &self.entries[i as usize];
            proof {
                assert(entries.take(i + 1).drop_last() == entries.take(i as int));
                assert(entries.take(i + 1).last() == entry@);
            }
            if !seen.contains(entry.uid) {
                out.push(Entry { uid: entry.uid, msg: entry.msg.clone() });
                assert(entries_view(out@) =~= entries_view(before).push(entry@));
            }
            i += 1;
        }
        assert(entries.take(total as int) == entries);
        out
    }

    /// Whether every member of the range addresses a message.
    pub fn holds_all(&self, range: &SeqRange) -> (b: bool)
        ensures
            folder_wf(self@),
            b == all_present(self@.entries, range@),
    {
        let n = self.count();
        range.within(n)
    }

    /// The message with sequence number `seq`, in full; `None` where the
    /// number addresses nothing.
    pub fn get(&self, seq: u32) -> (r: Option<Msg>)
        ensures
            folder_wf(self@),
            match r {
                Some(m) => present(self@.entries, seq as int) && m@ == self@.entries[seq - 1].msg,
                None => !present(self@.entries, seq as int),
            },
    {
        let n = self.count();
        if 1 <= seq && seq <= n {
            Some(self.entries[(seq - 1) as usize].msg.clone())
        } else {
            None
        }
    }

    /// The addressed messages in ascending sequence order.
    pub fn fetch(&self, range: &SeqRange, detail: Detail) -> (r: Vec<Msg>)
        ensures
            folder_wf(self@),
            msgs_view(r@) == fetched(self@.entries, range@, detail),
    {
        let n = self.count();
        let ghost entries = self@.entries;
        let mut out: Vec<Msg> = Vec::new();
        let mut i: u32 = 0;
        assert(entries.take(0) == Seq::<EntryView>::empty());
        assert(msgs_view(out@) =~= fetched(entries.take(0), range@, detail));
        while i < n
            invariant
                i <= n == entries.len(),
                entries == self@.entries,
                msgs_view(out@) == fetched(entries.take(i as int), range@, detail),
            decreases n - i,
        {
            let ghost before = out@;
            proof {
                assert(entries.take(i + 1).drop_last() == entries.take(i as int));
                assert(entries.take(i + 1).last() == entries[i as int]);
            }
            if range.contains(i + 1) {
                out.push(show(&self.entries[i as usize].msg, detail));
                assert(msgs_view(out@) =~= msgs_view(before).push(
                    shown(entries[i as int].msg, detail),
                ));
                assert(fetched(entries.take(i + 1), range@, detail) =~= fetched(
                    entries.take(i as int),
                    range@,
                    detail,
                ).push(shown(entries[i as int].msg, detail)));
            }
            i += 1;
        }
        assert(entries.take(n as int) == entries);
        out
    }

    /// The sequence numbers of the messages that meet the criterion.
    pub fn search(&self, query: &Query) -> (r: SeqRange)
        ensures
            folder_wf(self@),
            r.wf(),
            r@ == search_set(self@.entries, query@),
    {
        let n = self.count();
        let ghost entries = self@.entries;
        let mut out = SeqRange::empty();
        let mut i: u32 = 0;
        assert(out@ =~= search_set(entries.take(0), query@));
        while i < n
            invariant
                i <= n == entries.len(),
                entries == self@.entries,
                out.wf(),
                out@ == search_set(entries.take(i as int), query@),
            decreases n - i,
        {
            let hit = matches_query(query, &self.entries[i as usize].msg);
            let ghost had = out@;
            if hit {
                out = out.with_span(i + 1, i + 1);
            }
            proof {
                let now = search_set(entries.take(i + 1), query@);
                assert forall|s: int| now.contains(s) == (had.contains(s) || (hit && s == i + 1)) by {
                    if 1 <= s <= i + 1 {
                        assert(entries.take(i + 1)[s - 1] == entries[s - 1]);
                    }
                    if 1 <= s <= i {
                        assert(entries.take(i as int)[s - 1] == entries[s - 1]);
                    }
                }
                assert(out@ =~= now);
            }
            i += 1;
        }
        assert(entries.take(n as int) == entries);
        out
    }

    /// The identifiers of the messages in the mailbox.
    pub fn uids(&self) -> (r: SeqRange)
        ensures
            folder_wf(self@),
            r.wf(),
            r@ == uid_set(self@.entries),
    {
        let n = self.count();
        proof {
            use_type_invariant(self);
        }
        let ghost entries = self@.entries;
        let mut out = SeqRange::empty();
        let mut i: u32 = 0;
        assert(out@ =~= uid_set(entries.take(0)));
        while i < n
            invariant
                i <= n == entries.len(),
                entries == self@.entries,
                folder_wf(self@),
                out.wf(),
                out@ == uid_set(entries.take(i as int)),
            decreases n - i,
        {
            let uid = self.entries[i as usize].uid;
            let ghost had = out@;
            assert(entries[i as int].uid == uid);
            out = out.with_span(uid, uid);
            proof {
                let now = uid_set(entries.take(i + 1));
                assert forall|u: int| now.contains(u) implies had.contains(u) || u == uid by {
                    let k = choose|k: int|
                        0 <= k < entries.take(i + 1).len() && (#[trigger] entries.take(
                            i + 1,
                        )[k]).uid == u;
                    if k < i {
                        assert(entries.take(i as int)[k].uid == u);
                    }
                }
                assert forall|u: int| had.contains(u) || u == uid implies now.contains(u) by {
                    if had.contains(u) {
                        let k = choose|k: int|
                            0 <= k < entries.take(i as int).len() && (#[trigger] entries.take(
                                i as int,
                            )[k]).uid == u;
                        assert(entries.take(i + 1)[k].uid == u);
                    } else {
                        assert(entries.take(i + 1)[i as int].uid == u);
                    }
                }
                assert(out@ =~= now);
            }
            i += 1;
        }
        assert(entries.take(n as int) == entries);
        out
    }

    /// Removes every message that is flagged as deleted.
    pub fn expunge(&mut self)
        ensures
            folder_wf(final(self)@),
            final(self)@ == (FolderView { entries: expunged(old(self)@.entries), ..old(self)@ }),
    {
        proof {
            use_type_invariant(&*self);
        }
        let ghost before = self@.entries;
        let ghost limit = self@.uid_next;
        let mut taken: Vec<Entry> = Vec::new();
        std::mem::swap(&mut self.entries, &mut taken);
        let mut out: Vec<Entry> = Vec::new();
        assert(before.take(0) == Seq::<EntryView>::empty());
        assert(entries_view(out@) =~= expunged(before.take(0)));
        for entry in it: taken
            invariant
                entries_view(it.seq()) == before,
                forall|a: int| 0 <= a < before.len() ==> 1 <= (#[trigger] before[a]).uid < limit,
                forall|a: int, b: int|
                    0 <= a < b < before.len() ==> (#[trigger] before[a]).uid < (
                    #[trigger] before[b]).uid,
                entries_view(out@) == expunged(before.take(it.index() as int)),
                forall|a: int| 0 <= a < out@.len() ==> 1 <= (#[trigger] out@[a]).uid < limit,
                forall|a: int, b: int|
                    0 <= a < b < out@.len() ==> (#[trigger] out@[a]).uid < (#[trigger] out@[b]).uid,
                forall|a: int, b: int|
                    0 <= a < out@.len() && it.index() <= b < before.len() ==> (
                    #[trigger] out@[a]).uid < (#[trigger] before[b]).uid,
        {
            let ghost idx = it.index() as int;
            let ghost had = out@;
            proof {
                assert(entry@ == before[idx]);
                assert(before.take(idx + 1).drop_last() == before.take(idx));
                assert(before.take(idx + 1).last() == before[idx]);
            }
            if !entry.msg.flags.contains(&Flag::Deleted) {
                out.push(entry);
                proof {
                    assert(entries_view(out@) =~= entries_view(had).push(before[idx]));
                    assert forall|a: int, b: int| 0 <= a < b < out@.len() implies (
                    #[trigger] out@[a]).uid < (#[trigger] out@[b]).uid by {
                        if b == had.len() {
                            assert(had[a].uid < before[idx].uid);
                        } else {
                            assert(had[a].uid < had[b].uid);
                        }
                    }
                    assert forall|a: int, b: int|
                        0 <= a < out@.len() && idx + 1 <= b < before.len() implies (
                    #[trigger] out@[a]).uid < (#[trigger] before[b]).uid by {
                        if a == had.len() {
                            assert(before[idx].uid < before[b].uid);
                        } else {
                            assert(had[a].uid < before[b].uid);
                        }
                    }
                }
            }
        }
        assert(before.take(before.len() as int) == before);
        proof {
            let ev = entries_view(out@);
            assert forall|a: int| 0 <= a < ev.len() implies 1 <= (#[trigger] ev[a]).uid < limit by {
                assert(ev[a].uid == out@[a].uid);
            }
            assert forall|a: int, b: int| 0 <= a < b < ev.len() implies (#[trigger] ev[a]).uid < (
            #[trigger] ev[b]).uid by {
                assert(out@[a].uid < out@[b].uid);
            }
        }
        self.entries = out;
    }

    /// Flags the addressed messages as deleted, then expunges the mailbox.
    pub fn delete(&mut self, range: &SeqRange)
        ensures
            folder_wf(final(self)@),
            final(self)@ == (FolderView {
                entries: after_delete(old(self)@.entries, range@),
                ..old(self)@
            }),
    {
        let mut deleted = FlagSet::new();
        deleted.insert(Flag::Deleted);
        assert(deleted@ =~= set![FlagView::Deleted]);
        self.change_flags(range, &deleted, FlagChange::Add);
        self.expunge();
    }

    /// Appends the messages in order, each under the next free identifier.
    /// Where the identifiers do not suffice for all of them, nothing is
    /// appended and the result is `false`.
    pub fn append_all(&mut self, msgs: Vec<Msg>) -> (done: bool)
        ensures
            folder_wf(final(self)@),
            done == has_room(old(self)@, msgs@.len() as int),
            done ==> final(self)@ == appended(old(self)@, msgs_view(msgs@)),
            !done ==> final(self)@ == old(self)@,
    {
        proof {
            use_type_invariant(&*self);
        }
        let ghost start = self@;
        let ghost arriving = msgs_view(msgs@);
        if msgs.len() > 0xffff_ffff || self.uid_next + (msgs.len() as u64) > 0x1_0000_0000 {
            return false;
        }
        let mut taken: Vec<Entry> = Vec::new();
        std::mem::swap(&mut self.entries, &mut taken);
        let mut next: u64 = self.uid_next;
        let ghost base = start.entries.len() as int;
        for msg in it: msgs
            invariant
                msgs_view(it.seq()) == arriving,
                has_room(start, arriving.len() as int),
                next == start.uid_next + it.index(),
                taken@.len() == base + it.index(),
                base == start.entries.len(),
                forall|j: int| 0 <= j < base ==> (#[trigger] taken@[j])@ == start.entries[j],
                forall|j: int|
                    0 <= j < it.index() ==> (#[trigger] taken@[base + j])@ == (EntryView {
                        uid: start.uid_next + j,
                        msg: arriving[j],
                    }),
        {
            assert(msg@ == arriving[it.index() as int]);
            taken.push(Entry { uid: next as u32, msg });
            next = next + 1;
        }
        proof {
            let want = appended(start, arriving);
            let got = entries_view(taken@);
            assert(got.len() == want.entries.len());
            assert forall|j: int| 0 <= j < got.len() implies got[j] == want.entries[j] by {
                if j >= base {
                    assert(taken@[base + (j - base)]@ == want.entries[j]);
                }
            }
            assert(got =~= want.entries);
            assert(folder_wf(want)) by {
                assert forall|a: int, b: int| 0 <= a < b < want.entries.len() implies (
                #[trigger] want.entries[a]).uid < (#[trigger] want.entries[b]).uid by {
                    if b < base {
                        assert(start.entries[a].uid < start.entries[b].uid);
                    } else if a < base {
                        assert(start.entries[a].uid < start.uid_next);
                    }
                }
            }
        }
        self.uid_next = next;
        self.entries = taken;
        true
    }

    /// Appends one message under the next free identifier, which is
    /// returned; `None`, with nothing changed, where no identifier is left.
    pub fn append(&mut self, msg: Msg) -> (r: Option<u32>)
        ensures
            folder_wf(final(self)@),
            match r {
                Some(uid) => has_room(old(self)@, 1) && uid == old(self)@.uid_next && final(self)@
                    == appended(old(self)@, seq![msg@]),
                None => !has_room(old(self)@, 1) && final(self)@ == old(self)@,
            },
    {
        proof {
            use_type_invariant(&*self);
        }
        let uid = self.uid_next;
        let mut one: Vec<Msg> = Vec::new();
        one.push(msg);
        assert(msgs_view(one@) =~= seq![msg@]);
        if self.append_all(one) {
            Some(uid as u32)
        } else {
            None
        }
    }
}

// ---------------------------------------------------------------------------
// Laws
// ---------------------------------------------------------------------------

/// Adding flags to a range twice gives what adding them once gives.
pub proof fn lemma_add_flags_idempotent(
    entries: Seq<EntryView>,
    range: Set<int>,
    given: Set<FlagView>,
)
    ensures
        with_flags(with_flags(entries, range, given, FlagChange::Add), range, given, FlagChange::Add)
            == with_flags(entries, range, given, FlagChange::Add),
{
    let once = with_flags(entries, range, given, FlagChange::Add);
    let twice = with_flags(once, range, given, FlagChange::Add);
    assert forall|i: int| 0 <= i < entries.len() implies twice[i] == once[i] by {
        if range.contains(i + 1) {
            assert(once[i].msg.flags.union(given) =~= once[i].msg.flags);
        }
    }
    assert(twice =~= once);
}

/// Removing from a range the flags that were just added to it gives back
/// the mailbox as it was, provided that no addressed message had any of
/// the flags before.
pub proof fn lemma_remove_added_flags(
    entries: Seq<EntryView>,
    range: Set<int>,
    given: Set<FlagView>,
)
    requires
        forall|i: int|
            0 <= i < entries.len() && range.contains(i + 1) ==> (
            #[trigger] entries[i]).msg.flags.disjoint(given),
    ensures
        with_flags(
            with_flags(entries, range, given, FlagChange::Add),
            range,
            given,
            FlagChange::Remove,
        ) == entries,
{
    let added = with_flags(entries, range, given, FlagChange::Add);
    let back = with_flags(added, range, given, FlagChange::Remove);
    assert forall|i: int| 0 <= i < entries.len() implies back[i] == entries[i] by {
        if range.contains(i + 1) {
            assert(entries[i].msg.flags.disjoint(given));
            assert(entries[i].msg.flags.union(given).difference(given) =~= entries[i].msg.flags);
        }
    }
    assert(back =~= entries);
}

/// A flag operation touches nothing but the flags of the addressed
/// messages: the count, the identifiers and every other message stay.
pub proof fn lemma_flags_touch_only_addressed(
    entries: Seq<EntryView>,
    range: Set<int>,
    given: Set<FlagView>,
    change: FlagChange,
    i: int,
)
    requires
        0 <= i < entries.len(),
    ensures
        with_flags(entries, range, given, change).len() == entries.len(),
        with_flags(entries, range, given, change)[i].uid == entries[i].uid,
        !range.contains(i + 1) ==> with_flags(entries, range, given, change)[i] == entries[i],
{
}

/// Nothing that was seen is reported again: no entry with an identifier
/// in the snapshot is among the arrivals, whatever its flags are now.
pub proof fn lemma_seen_is_not_reported(entries: Seq<EntryView>, seen: Set<int>, i: int)
    requires
        0 <= i < unseen(entries, seen).len(),
    ensures
        !seen.contains(unseen(entries, seen)[i].uid),
    decreases entries.len(),
{
    let front = unseen(entries.drop_last(), seen);
    if i < front.len() {
        lemma_seen_is_not_reported(entries.drop_last(), seen, i);
    }
}

/// Every entry with an identifier outside the snapshot is among the
/// arrivals.
pub proof fn lemma_new_is_reported(entries: Seq<EntryView>, seen: Set<int>, k: int)
    requires
        0 <= k < entries.len(),
        !seen.contains(entries[k].uid),
    ensures
        unseen(entries, seen).contains(entries[k]),
    decreases entries.len(),
{
    let front = unseen(entries.drop_last(), seen);
    let all = unseen(entries, seen);
    if k == entries.len() - 1 {
        assert(all == front.push(entries[k]));
        assert(all[front.len() as int] == entries[k]);
    } else {
        lemma_new_is_reported(entries.drop_last(), seen, k);
        let j = choose|j: int| 0 <= j < front.len() && front[j] == entries.drop_last()[k];
        assert(all[j] == entries[k]);
    }
}

/// After a snapshot of the mailbox, the mailbox has no arrivals, and
/// neither has any mailbox with the same identifiers.
pub proof fn lemma_same_snapshot_no_arrivals(entries: Seq<EntryView>, seen: Set<int>)
    requires
        forall|i: int| 0 <= i < entries.len() ==> seen.contains((#[trigger] entries[i]).uid),
    ensures
        unseen(entries, seen) == Seq::<EntryView>::empty(),
    decreases entries.len(),
{
    if entries.len() > 0 {
        let front = entries.drop_last();
        assert forall|i: int| 0 <= i < front.len() implies seen.contains(
            (#[trigger] front[i]).uid,
        ) by {
            assert(front[i] == entries[i]);
        }
        lemma_same_snapshot_no_arrivals(front, seen);
        assert(seen.contains(entries[entries.len() - 1].uid));
    }
}

} // verus!
