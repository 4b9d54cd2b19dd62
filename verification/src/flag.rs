//! Message flags and flag sets, and the flag-list text.

use crate::error::Error;
use crate::text::{chars_of, eq_ignore_case, matches_ignore_case, string_of};
use vstd::prelude::*;

verus! {

/// A symbolic message flag: one of the five system flags, or a keyword.
#[derive(Debug)]
pub enum Flag {
    Seen,
    Answered,
    Flagged,
    Deleted,
    Draft,
    Custom(String),
}

/// The mathematical value of a [`Flag`].
pub ghost enum FlagView {
    Seen,
    Answered,
    Flagged,
    Deleted,
    Draft,
    Custom(Seq<char>),
}

impl View for Flag {
    type V = FlagView;

    open spec fn view(&self) -> FlagView {
        match self {
            Flag::Seen => FlagView::Seen,
            Flag::Answered => FlagView::Answered,
            Flag::Flagged => FlagView::Flagged,
            Flag::Deleted => FlagView::Deleted,
            Flag::Draft => FlagView::Draft,
            Flag::Custom(word) => FlagView::Custom(word@),
        }
    }
}

impl Clone for Flag {
    fn clone(&self) -> (r: Flag)
        ensures
            r@ == self@,
    {
        match self {
            Flag::Seen => Flag::Seen,
            Flag::Answered => Flag::Answered,
            Flag::Flagged => Flag::Flagged,
            Flag::Deleted => Flag::Deleted,
            Flag::Draft => Flag::Draft,
            Flag::Custom(word) => Flag::Custom(word.clone()),
        }
    }
}

/// Some keyword among `words[..upto]` reads `word`.
pub open spec fn listed(words: Seq<String>, upto: int, word: Seq<char>) -> bool {
    exists|i: int| 0 <= i < upto && 0 <= i < words.len() && (#[trigger] words[i])@ == word
}

/// A set of flags.
#[derive(Debug)]
pub struct FlagSet {
    seen: bool,
    answered: bool,
    flagged: bool,
    deleted: bool,
    draft: bool,
    keywords: Vec<String>,
}

impl View for FlagSet {
    type V = Set<FlagView>;

    closed spec fn view(&self) -> Set<FlagView> {
        Set::new(
            |f: FlagView|
                match f {
                    FlagView::Seen => self.seen,
                    FlagView::Answered => self.answered,
                    FlagView::Flagged => self.flagged,
                    FlagView::Deleted => self.deleted,
                    FlagView::Draft => self.draft,
                    FlagView::Custom(word) => listed(self.keywords@, self.keywords@.len() as int, word),
                },
        )
    }
}

impl FlagSet {
    /// The set without flags.
    pub fn new() -> (r: FlagSet)
        ensures
            r@ == Set::<FlagView>::empty(),
    {
        let r = FlagSet {
            seen: false,
            answered: false,
            flagged: false,
            deleted: false,
            draft: false,
            keywords: Vec::new(),
        };
        assert(r@ =~= Set::<FlagView>::empty());
        r
    }

    fn has_keyword(&self, word: &String) -> (b: bool)
        ensures
            b == listed(self.keywords@, self.keywords@.len() as int, word@),
    {
        let mut i: usize = 0;
        while i < self.keywords.len()
            invariant
                i <= self.keywords.len(),
                !listed(self.keywords@, i as int, word@),
            decreases self.keywords.len() - i,
        {
            if self.keywords[i] == *word {
                return true;
            }
            i += 1;
        }
        false
    }

    /// Whether `flag` is in the set.
    pub fn contains(&self, flag: &Flag) -> (b: bool)
        ensures
            b == self@.contains(flag@),
    {
        match flag {
            Flag::Seen => self.seen,
            Flag::Answered => self.answered,
            Flag::Flagged => self.flagged,
            Flag::Deleted => self.deleted,
            Flag::Draft => self.draft,
            Flag::Custom(word) => self.has_keyword(word),
        }
    }

    /// Adds `flag`; a flag that is already in the set changes nothing.
    pub fn insert(&mut self, flag: Flag)
        ensures
            final(self)@ == old(self)@.insert(flag@),
    {
        match flag {
            Flag::Seen => {
                self.seen = true;
            },
            Flag::Answered => {
                self.answered = true;
            },
            Flag::Flagged => {
                self.flagged = true;
            },
            Flag::Deleted => {
                self.deleted = true;
            },
            Flag::Draft => {
                self.draft = true;
            },
            Flag::Custom(word) => {
                if !self.has_keyword(&word) {
                    let ghost before = self.keywords@;
                    let ghost w = word@;
                    self.keywords.push(word);
                    proof {
                        let after = self.keywords@;
                        assert forall|k: Seq<char>|
                            listed(after, after.len() as int, k) == (k == w || listed(
                                before,
                                before.len() as int,
                                k,
                            )) by {
                            if listed(after, after.len() as int, k) {
                                let i = choose|i: int|
                                    0 <= i < after.len() && 0 <= i < after.len() && (
                                    #[trigger] after[i])@ == k;
                                if i < before.len() {
                                    assert(before[i]@ == k);
                                }
                            }
                            if k == w {
                                assert(after[before.len() as int]@ == k);
                            }
                            if listed(before, before.len() as int, k) {
                                let i = choose|i: int|
                                    0 <= i < before.len() && 0 <= i < before.len() && (
                                    #[trigger] before[i])@ == k;
                                assert(after[i]@ == k);
                            }
                        }
                    }
                }
            },
        }
        assert(self@ =~= old(self)@.insert(flag@));
    }

    /// Removes `flag`; a flag that is not in the set changes nothing.
    pub fn remove(&mut self, flag: &Flag)
        ensures
            final(self)@ == old(self)@.remove(flag@),
    {
        match flag {
            Flag::Seen => {
                self.seen = false;
            },
            Flag::Answered => {
                self.answered = false;
            },
            Flag::Flagged => {
                self.flagged = false;
            },
            Flag::Deleted => {
                self.deleted = false;
            },
            Flag::Draft => {
                self.draft = false;
            },
            Flag::Custom(word) => {
                let ghost before = self.keywords@;
                let mut kept: Vec<String> = Vec::new();
                let mut i: usize = 0;
                while i < self.keywords.len()
                    invariant
                        i <= self.keywords.len(),
                        before == self.keywords@,
                        forall|k: Seq<char>|
                            #![trigger listed(kept@, kept@.len() as int, k)]
                            listed(kept@, kept@.len() as int, k) == (k != word@ && listed(
                                before,
                                i as int,
                                k,
                            )),
                    decreases self.keywords.len() - i,
                {
                    let ghost old_kept = kept@;
                    let item = self.keywords[i].clone();
                    let keep = item != *word;
                    if keep {
                        kept.push(item);
                    }
                    proof {
                        let now = kept@;
                        assert forall|k: Seq<char>|
                            #![trigger listed(now, now.len() as int, k)]
                            listed(now, now.len() as int, k) == (k != word@ && listed(
                                before,
                                i + 1,
                                k,
                            )) by {
                            let was = listed(old_kept, old_kept.len() as int, k);
                            assert(was == (k != word@ && listed(before, i as int, k)));
                            if listed(now, now.len() as int, k) {
                                let j = choose|j: int|
                                    0 <= j < now.len() && 0 <= j < now.len() && (
                                    #[trigger] now[j])@ == k;
                                if j < old_kept.len() {
                                    assert(old_kept[j]@ == k);
                                    let m = choose|m: int|
                                        0 <= m < i && 0 <= m < before.len() && (
                                        #[trigger] before[m])@ == k;
                                    assert(before[m]@ == k);
                                } else {
                                    assert(before[i as int]@ == k);
                                }
                            }
                            if k != word@ && listed(before, i + 1, k) {
                                let m = choose|m: int|
                                    0 <= m < i + 1 && 0 <= m < before.len() && (
                                    #[trigger] before[m])@ == k;
                                if m < i {
                                    assert(before[m]@ == k);
                                    assert(was);
                                    let j = choose|j: int|
                                        0 <= j < old_kept.len() && 0 <= j < old_kept.len() && (
                                        #[trigger] old_kept[j])@ == k;
                                    assert(now[j]@ == k);
                                } else {
                                    assert(now[old_kept.len() as int]@ == k);
                                }
                            }
                        }
                    }
                    i += 1;
                }
                self.keywords = kept;
            },
        }
        assert(self@ =~= old(self)@.remove(flag@));
    }
}

impl FlagSet {
    /// The flags of the set that are system flags, or keywords among the
    /// first `upto` that the set lists.
    closed spec fn part(&self, upto: int) -> Set<FlagView> {
        Set::new(
            |f: FlagView|
                match f {
                    FlagView::Seen => self.seen,
                    FlagView::Answered => self.answered,
                    FlagView::Flagged => self.flagged,
                    FlagView::Deleted => self.deleted,
                    FlagView::Draft => self.draft,
                    FlagView::Custom(word) => listed(self.keywords@, upto, word),
                },
        )
    }

    /// A copy of the set.
    fn duplicate(&self) -> (r: FlagSet)
        ensures
            r@ == self@,
    {
        let mut keywords: Vec<String> = Vec::new();
        let mut i: usize = 0;
        while i < self.keywords.len()
            invariant
                i <= self.keywords.len(),
                keywords@ == self.keywords@.take(i as int),
            decreases self.keywords.len() - i,
        {
            keywords.push(self.keywords[i].clone());
            i += 1;
        }
        assert(keywords@ == self.keywords@);
        let r = FlagSet {
            seen: self.seen,
            answered: self.answered,
            flagged: self.flagged,
            deleted: self.deleted,
            draft: self.draft,
            keywords,
        };
        assert(r@ =~= self@);
        r
    }

    /// The flags that are in `self` or in `other`.
    pub fn union(&self, other: &FlagSet) -> (r: FlagSet)
        ensures
            r@ == self@.union(other@),
    {
        let mut r = self.duplicate();
        r.seen = r.seen || other.seen;
        r.answered = r.answered || other.answered;
        r.flagged = r.flagged || other.flagged;
        r.deleted = r.deleted || other.deleted;
        r.draft = r.draft || other.draft;
        assert(r@ =~= self@.union(other.part(0)));
        let mut i: usize = 0;
        while i < other.keywords.len()
            invariant
                i <= other.keywords.len(),
                r@ == self@.union(other.part(i as int)),
            decreases other.keywords.len() - i,
        {
            let word = other.keywords[i].clone();
            proof {
                assert forall|k: Seq<char>|
                    listed(other.keywords@, i + 1, k) == (k == word@ || listed(
                        other.keywords@,
                        i as int,
                        k,
                    )) by {
                    if listed(other.keywords@, i + 1, k) {
                        let m = choose|m: int|
                            0 <= m < i + 1 && 0 <= m < other.keywords@.len() && (
                            #[trigger] other.keywords@[m])@ == k;
                        if m < i {
                            assert(other.keywords@[m]@ == k);
                        }
                    }
                    if k == word@ {
                        assert(other.keywords@[i as int]@ == k);
                    }
                    if listed(other.keywords@, i as int, k) {
                        let m = choose|m: int|
                            0 <= m < i && 0 <= m < other.keywords@.len() && (
                            #[trigger] other.keywords@[m])@ == k;
                        assert(other.keywords@[m]@ == k);
                    }
                }
                assert(other.part(i + 1) =~= other.part(i as int).insert(FlagView::Custom(word@)));
            }
            r.insert(Flag::Custom(word));
            assert(r@ =~= self@.union(other.part(i + 1)));
            i += 1;
        }
        assert(other.part(other.keywords@.len() as int) =~= other@);
        r
    }

    /// The flags that are in `self` and not in `other`.
    pub fn difference(&self, other: &FlagSet) -> (r: FlagSet)
        ensures
            r@ == self@.difference(other@),
    {
        let mut r = self.duplicate();
        r.seen = r.seen && !other.seen;
        r.answered = r.answered && !other.answered;
        r.flagged = r.flagged && !other.flagged;
        r.deleted = r.deleted && !other.deleted;
        r.draft = r.draft && !other.draft;
        assert(r@ =~= self@.difference(other.part(0)));
        let mut i: usize = 0;
        while i < other.keywords.len()
            invariant
                i <= other.keywords.len(),
                r@ == self@.difference(other.part(i as int)),
            decreases other.keywords.len() - i,
        {
            let word = other.keywords[i].clone();
            proof {
                assert forall|k: Seq<char>|
                    listed(other.keywords@, i + 1, k) == (k == word@ || listed(
                        other.keywords@,
                        i as int,
                        k,
                    )) by {
                    if listed(other.keywords@, i + 1, k) {
                        let m = choose|m: int|
                            0 <= m < i + 1 && 0 <= m < other.keywords@.len() && (
                            #[trigger] other.keywords@[m])@ == k;
                        if m < i {
                            assert(other.keywords@[m]@ == k);
                        }
                    }
                    if k == word@ {
                        assert(other.keywords@[i as int]@ == k);
                    }
                    if listed(other.keywords@, i as int, k) {
                        let m = choose|m: int|
                            0 <= m < i && 0 <= m < other.keywords@.len() && (
                            #[trigger] other.keywords@[m])@ == k;
                        assert(other.keywords@[m]@ == k);
                    }
                }
                assert(other.part(i + 1) =~= other.part(i as int).insert(FlagView::Custom(word@)));
            }
            r.remove(&Flag::Custom(word));
            assert(r@ =~= self@.difference(other.part(i + 1)));
            i += 1;
        }
        assert(other.part(other.keywords@.len() as int) =~= other@);
        r
    }
}

/// The name that a flag is written with: the capitalized name of a system
/// flag, or the keyword as it is.
pub open spec fn flag_name(f: FlagView) -> Seq<char> {
    match f {
        FlagView::Seen => "Seen"@,
        FlagView::Answered => "Answered"@,
        FlagView::Flagged => "Flagged"@,
        FlagView::Deleted => "Deleted"@,
        FlagView::Draft => "Draft"@,
        FlagView::Custom(word) => word,
    }
}

impl Flag {
    /// The name that the flag is written with.
    pub fn name(&self) -> (r: String)
        ensures
            r@ == flag_name(self@),
    {
        match self {
            Flag::Seen => String::from_str("Seen"),
            Flag::Answered => String::from_str("Answered"),
            Flag::Flagged => String::from_str("Flagged"),
            Flag::Deleted => String::from_str("Deleted"),
            Flag::Draft => String::from_str("Draft"),
            Flag::Custom(word) => word.clone(),
        }
    }

    /// Whether the flag is one of the five system flags.
    pub fn is_system(&self) -> (b: bool)
        ensures
            b == !(self@ is Custom),
    {
        match self {
            Flag::Custom(_) => false,
            _ => true,
        }
    }
}

/// Some flag in the list has the value `f`.
pub open spec fn lists_flag(list: Seq<Flag>, f: FlagView) -> bool {
    exists|i: int| 0 <= i < list.len() && (#[trigger] list[i])@ == f
}

proof fn lemma_lists_flag_push(list: Seq<Flag>, flag: Flag, f: FlagView)
    ensures
        lists_flag(list.push(flag), f) == (lists_flag(list, f) || flag@ == f),
{
    let all = list.push(flag);
    if lists_flag(all, f) {
        let i = choose|i: int| 0 <= i < all.len() && (#[trigger] all[i])@ == f;
        if i < list.len() {
            assert(list[i]@ == f);
        }
    }
    if lists_flag(list, f) {
        let i = choose|i: int| 0 <= i < list.len() && (#[trigger] list[i])@ == f;
        assert(all[i]@ == f);
    }
    if flag@ == f {
        assert(all[list.len() as int]@ == f);
    }
}

impl FlagSet {
    /// The system flags of the set among the first `upto` of them, and the
    /// keywords among the first `words` that the set lists.
    closed spec fn prefix(&self, upto: int, words: int) -> Set<FlagView> {
        Set::new(
            |f: FlagView|
                match f {
                    FlagView::Seen => upto >= 1 && self.seen,
                    FlagView::Answered => upto >= 2 && self.answered,
                    FlagView::Flagged => upto >= 3 && self.flagged,
                    FlagView::Deleted => upto >= 4 && self.deleted,
                    FlagView::Draft => upto >= 5 && self.draft,
                    FlagView::Custom(word) => listed(self.keywords@, words, word),
                },
        )
    }

    fn push_if(&self, out: &mut Vec<Flag>, flag: Flag, wanted: bool, Ghost(upto): Ghost<int>)
        requires
            !(flag@ is Custom),
            forall|f: FlagView| lists_flag(old(out)@, f) == self.prefix(upto, 0).contains(f),
            forall|f: FlagView|
                self.prefix(upto + 1, 0).contains(f) == (self.prefix(upto, 0).contains(f) || (wanted
                    && f == flag@)),
        ensures
            forall|f: FlagView| lists_flag(final(out)@, f) == self.prefix(upto + 1, 0).contains(f),
    {
        if wanted {
            proof {
                assert forall|f: FlagView| lists_flag(out@.push(flag), f) == self.prefix(
                    upto + 1,
                    0,
                ).contains(f) by {
                    lemma_lists_flag_push(out@, flag, f);
                }
            }
            out.push(flag);
        }
    }

    /// The flags of the set: the system flags first, in the order seen,
    /// answered, flagged, deleted, draft; then the keywords in the order
    /// in which they came.
    pub fn to_vec(&self) -> (r: Vec<Flag>)
        ensures
            forall|f: FlagView| self@.contains(f) == lists_flag(r@, f),
    {
        let mut out: Vec<Flag> = Vec::new();
        self.push_if(&mut out, Flag::Seen, self.seen, Ghost(0));
        self.push_if(&mut out, Flag::Answered, self.answered, Ghost(1));
        self.push_if(&mut out, Flag::Flagged, self.flagged, Ghost(2));
        self.push_if(&mut out, Flag::Deleted, self.deleted, Ghost(3));
        self.push_if(&mut out, Flag::Draft, self.draft, Ghost(4));
        let mut i: usize = 0;
        while i < self.keywords.len()
            invariant
                i <= self.keywords.len(),
                forall|f: FlagView| lists_flag(out@, f) == self.prefix(5, i as int).contains(f),
            decreases self.keywords.len() - i,
        {
            let flag = Flag::Custom(self.keywords[i].clone());
            proof {
                assert forall|f: FlagView| lists_flag(out@.push(flag), f) == self.prefix(
                    5,
                    i + 1,
                ).contains(f) by {
                    lemma_lists_flag_push(out@, flag, f);
                    match f {
                        FlagView::Custom(word) => {
                            if listed(self.keywords@, i + 1, word) {
                                let m = choose|m: int|
                                    0 <= m < i + 1 && 0 <= m < self.keywords@.len() && (
                                    #[trigger] self.keywords@[m])@ == word;
                                if m < i {
                                    assert(self.keywords@[m]@ == word);
                                }
                            }
                            if listed(self.keywords@, i as int, word) {
                                let m = choose|m: int|
                                    0 <= m < i && 0 <= m < self.keywords@.len() && (
                                    #[trigger] self.keywords@[m])@ == word;
                                assert(self.keywords@[m]@ == word);
                            }
                            if word == self.keywords@[i as int]@ {
                                assert(self.keywords@[i as int]@ == word);
                            }
                        },
                        _ => {},
                    }
                }
            }
            out.push(flag);
            i += 1;
        }
        assert(self.prefix(5, self.keywords@.len() as int) =~= self@);
        out
    }
}

impl Clone for FlagSet {
    fn clone(&self) -> (r: FlagSet)
        ensures
            r@ == self@,
    {
        self.duplicate()
    }
}

// ---------------------------------------------------------------------------
// The flag-list text
// ---------------------------------------------------------------------------

/// Flag names are separated by commas and ASCII blanks.
pub open spec fn is_separator(c: char) -> bool {
    c == ',' || c == ' ' || c == '\t' || c == '\n' || c == '\r'
}

/// The length of the longest prefix of `s` without a separator.
pub open spec fn word_len(s: Seq<char>) -> int
    decreases s.len(),
{
    if s.len() == 0 || is_separator(s[0]) {
        0
    } else {
        1 + word_len(s.drop_first())
    }
}

/// The maximal separator-free pieces of `s`, in order; none is empty.
pub open spec fn words(s: Seq<char>) -> Seq<Seq<char>>
    decreases s.len(),
{
    if s.len() == 0 {
        Seq::empty()
    } else if is_separator(s[0]) {
        words(s.drop_first())
    } else {
        let k = word_len(s);
        if 0 < k <= s.len() {
            seq![s.take(k)] + words(s.skip(k))
        } else {
            Seq::empty()
        }
    }
}

/// The flag that a name denotes: one of the five system flags where the
/// name is theirs up to the case of ASCII letters, else the keyword as
/// written.
pub open spec fn flag_of_word(word: Seq<char>) -> FlagView {
    if eq_ignore_case(word, "seen"@) {
        FlagView::Seen
    } else if eq_ignore_case(word, "answered"@) {
        FlagView::Answered
    } else if eq_ignore_case(word, "flagged"@) {
        FlagView::Flagged
    } else if eq_ignore_case(word, "deleted"@) {
        FlagView::Deleted
    } else if eq_ignore_case(word, "draft"@) {
        FlagView::Draft
    } else {
        FlagView::Custom(word)
    }
}

/// The flags that the names denote.
pub open spec fn flags_of_words(names: Seq<Seq<char>>) -> Set<FlagView> {
    Set::new(
        |f: FlagView| exists|i: int| 0 <= i < names.len() && flag_of_word(#[trigger] names[i]) == f,
    )
}

/// The flags that a flag-list text denotes.
pub open spec fn flags_of_text(text: Seq<char>) -> Set<FlagView> {
    flags_of_words(words(text))
}

proof fn lemma_word_len_is(s: Seq<char>, k: int)
    requires
        0 <= k <= s.len(),
        forall|i: int| 0 <= i < k ==> !is_separator(s[i]),
        k < s.len() ==> is_separator(s[k]),
    ensures
        word_len(s) == k,
    decreases s.len(),
{
    if k > 0 {
        let t = s.drop_first();
        assert forall|i: int| 0 <= i < k - 1 implies !is_separator(t[i]) by {
            assert(t[i] == s[i + 1]);
        }
        lemma_word_len_is(t, k - 1);
    }
}

proof fn lemma_flags_of_words_push(names: Seq<Seq<char>>, name: Seq<char>)
    ensures
        flags_of_words(names.push(name)) == flags_of_words(names).insert(flag_of_word(name)),
{
    let all = names.push(name);
    assert forall|f: FlagView| flags_of_words(all).contains(f) implies flags_of_words(names).insert(
        flag_of_word(name),
    ).contains(f) by {
        let i = choose|i: int| 0 <= i < all.len() && flag_of_word(#[trigger] all[i]) == f;
        if i < names.len() {
            assert(flag_of_word(names[i]) == f);
        }
    }
    assert forall|f: FlagView|
        flags_of_words(names).insert(flag_of_word(name)).contains(f) implies flags_of_words(
        all,
    ).contains(f) by {
        if flags_of_words(names).contains(f) {
            let i = choose|i: int| 0 <= i < names.len() && flag_of_word(#[trigger] names[i]) == f;
            assert(flag_of_word(all[i]) == f);
        } else {
            assert(flag_of_word(all[names.len() as int]) == f);
        }
    }
    assert(flags_of_words(all) =~= flags_of_words(names).insert(flag_of_word(name)));
}

fn is_separator_char(c: char) -> (b: bool)
    ensures
        b == is_separator(c),
{
    c == ',' || c == ' ' || c == '\t' || c == '\n' || c == '\r'
}

/// The flag that the name `chars[start..end]` denotes.
fn flag_from_chars(chars: &Vec<char>, start: usize, end: usize) -> (r: Flag)
    requires
        start <= end <= chars.len(),
    ensures
        r@ == flag_of_word(chars@.subrange(start as int, end as int)),
{
    if matches_ignore_case(chars, start, end, &chars_of("seen")) {
        Flag::Seen
    } else if matches_ignore_case(chars, start, end, &chars_of("answered")) {
        Flag::Answered
    } else if matches_ignore_case(chars, start, end, &chars_of("flagged")) {
        Flag::Flagged
    } else if matches_ignore_case(chars, start, end, &chars_of("deleted")) {
        Flag::Deleted
    } else if matches_ignore_case(chars, start, end, &chars_of("draft")) {
        Flag::Draft
    } else {
        Flag::Custom(string_of(chars, start, end))
    }
}

impl Flag {
    /// The flag that `name` denotes.
    pub fn from_name(name: &str) -> (r: Flag)
        ensures
            r@ == flag_of_word(name@),
    {
        let chars = chars_of(name);
        assert(chars@.subrange(0, chars@.len() as int) == chars@);
        flag_from_chars(&chars, 0, chars.len())
    }
}

/// Parses a flag list such as `seen, flagged work`.
///
/// Names are separated by commas and ASCII blanks; empty pieces are
/// skipped. Every name is accepted: the names of the system flags are
/// matched without regard to case, and any other name is kept as a
/// keyword as written. The result is therefore always `Ok`.
pub fn parse_flags(text: &str) -> (r: Result<FlagSet, Error>)
    ensures
        r is Ok,
        r matches Ok(set) && set@ == flags_of_text(text@),
{
    let chars = chars_of(text);
    let n = chars.len();
    let mut set = FlagSet::new();
    let mut i: usize = 0;
    let ghost mut done: Seq<Seq<char>> = Seq::empty();
    assert(chars@.skip(0) == chars@);
    assert(flags_of_words(done) =~= Set::<FlagView>::empty());
    while i < n
        invariant
            i <= n == chars.len(),
            chars@ == text@,
            words(chars@) == done + words(chars@.skip(i as int)),
            set@ == flags_of_words(done),
        decreases n - i,
    {
        let ghost rest = chars@.skip(i as int);
        if is_separator_char(chars[i]) {
            assert(rest.drop_first() == chars@.skip(i + 1));
            i += 1;
        } else {
            let mut j: usize = i + 1;
            while j < n && !is_separator_char(chars[j])
                invariant
                    i < j <= n == chars.len(),
                    forall|k: int| i <= k < j ==> !is_separator(chars@[k]),
                decreases n - j,
            {
                j += 1;
            }
            let ghost word = chars@.subrange(i as int, j as int);
            proof {
                lemma_word_len_is(rest, j - i);
                assert(rest.take(j - i) == word);
                assert(rest.skip(j - i) == chars@.skip(j as int));
                assert(words(chars@) == done.push(word) + words(chars@.skip(j as int)));
                lemma_flags_of_words_push(done, word);
                done = done.push(word);
            }
            set.insert(flag_from_chars(&chars, i, j));
            i = j;
        }
    }
    assert(words(chars@.skip(n as int)) == Seq::<Seq<char>>::empty());
    assert(done + Seq::<Seq<char>>::empty() == done);
    Ok(set)
}

// ---------------------------------------------------------------------------
// Laws of the flag algebra
// ---------------------------------------------------------------------------

/// Adding flags is idempotent: adding `added` to a set twice gives what
/// adding it once gives.
pub proof fn lemma_add_idempotent(set: FlagSet, added: FlagSet)
    ensures
        set@.union(added@).union(added@) == set@.union(added@),
{
    assert(set@.union(added@).union(added@) =~= set@.union(added@));
}

/// Removing flags is idempotent as well.
pub proof fn lemma_remove_idempotent(set: FlagSet, removed: FlagSet)
    ensures
        set@.difference(removed@).difference(removed@) == set@.difference(removed@),
{
    assert(set@.difference(removed@).difference(removed@) =~= set@.difference(removed@));
}

/// Removing what was just added gives back the set as it was, provided
/// that none of the added flags was in it before.
pub proof fn lemma_remove_after_add(set: FlagSet, added: FlagSet)
    requires
        set@.disjoint(added@),
    ensures
        set@.union(added@).difference(added@) == set@,
{
    assert(set@.union(added@).difference(added@) =~= set@);
}

} // verus!
