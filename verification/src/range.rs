//! Sequence ranges: sets of positive message numbers, written as
//! comma-separated numbers and `first:last` spans.

use crate::error::{Error, ErrorView};
use crate::text::{
    chars_of, decimal, find_char, find_from, join, lemma_decimal_roundtrip,
    lemma_find_char_is, lemma_join_push, lemma_split_join, number_of, parse_number, push_decimal,
    split, string_of,
};
use vstd::prelude::*;

verus! {

/// The numbers from `first` to `last`, both included.
#[derive(Clone, Copy, Debug, PartialEq, Eq)]
pub struct Span {
    pub first: u32,
    pub last: u32,
}

pub open spec fn span_contains(s: Span, n: int) -> bool {
    s.first <= n <= s.last
}

/// Some span among `spans[from..to]` holds `n`.
pub open spec fn covered(spans: Seq<Span>, from: int, to: int, n: int) -> bool {
    exists|k: int| from <= k < to && 0 <= k < spans.len() && span_contains(#[trigger] spans[k], n)
}

/// The numbers that the spans hold together.
pub open spec fn spans_set(spans: Seq<Span>) -> Set<int> {
    Set::new(|n: int| covered(spans, 0, spans.len() as int, n))
}

/// The numbers from `first` to `last`, both included.
pub open spec fn interval(first: int, last: int) -> Set<int> {
    Set::new(|n: int| first <= n <= last)
}

/// The normal form of a span list: every span is non-empty and positive,
/// the spans ascend, and no two of them overlap or touch.
pub open spec fn normalized(spans: Seq<Span>) -> bool {
    &&& forall|i: int| 0 <= i < spans.len() ==> 1 <= (#[trigger] spans[i]).first <= spans[i].last
    &&& forall|i: int, j: int|
        0 <= i < j < spans.len() ==> (#[trigger] spans[i]).last + 1 < (#[trigger] spans[j]).first
}

/// An ordered set of positive message numbers, held in normal form.
#[derive(Debug)]
pub struct SeqRange {
    spans: Vec<Span>,
}

impl View for SeqRange {
    type V = Set<int>;

    open spec fn view(&self) -> Set<int> {
        spans_set(self.spans())
    }
}

impl SeqRange {
    /// The spans of the range, ascending.
    pub closed spec fn spans(&self) -> Seq<Span> {
        self.spans@
    }

    /// The spans are in normal form. Every range that executable code holds
    /// is well formed.
    pub open spec fn wf(&self) -> bool {
        normalized(self.spans())
    }

    #[verifier::type_invariant]
    spec fn inv(&self) -> bool {
        normalized(self.spans@)
    }

    /// The range without members.
    pub fn empty() -> (r: SeqRange)
        ensures
            r.wf(),
            r.spans() == Seq::<Span>::empty(),
            r@ == Set::<int>::empty(),
    {
        let r = SeqRange { spans: Vec::new() };
        assert(r@ =~= Set::<int>::empty());
        r
    }

    /// Whether the range has no member.
    pub fn is_empty(&self) -> (b: bool)
        ensures
            self.wf(),
            b == (self.spans().len() == 0),
            b == (self@ == Set::<int>::empty()),
    {
        proof {
            use_type_invariant(self);
            if self.spans@.len() > 0 {
                assert(span_contains(self.spans@[0], self.spans@[0].first as int));
                assert(self@.contains(self.spans@[0].first as int));
            } else {
                assert(self@ =~= Set::<int>::empty());
            }
        }
        self.spans.len() == 0
    }

    /// Whether `n` is a member.
    pub fn contains(&self, n: u32) -> (b: bool)
        ensures
            self.wf(),
            b == self@.contains(n as int),
    {
        proof {
            use_type_invariant(self);
        }
        let mut i: usize = 0;
        while i < self.spans.len()
            invariant
                i <= self.spans.len(),
                normalized(self.spans@),
                !covered(self.spans@, 0, i as int, n as int),
            decreases self.spans.len() - i,
        {
            let s = self.spans[i];
            if s.first <= n && n <= s.last {
                assert(span_contains(self.spans@[i as int], n as int));
                return true;
            }
            i += 1;
        }
        false
    }

    /// Whether every member is at most `limit`. Members are positive, so
    /// this says that the range lies within `1..=limit`.
    pub fn within(&self, limit: u32) -> (b: bool)
        ensures
            self.wf(),
            b == (forall|n: int| self@.contains(n) ==> 1 <= n <= limit),
    {
        proof {
            use_type_invariant(self);
        }
        let ghost spans = self.spans@;
        let count = self.spans.len();
        proof {
            assert forall|n: int| self@.contains(n) implies 1 <= n && (count > 0 && n <= spans[count
                - 1].last) by {
                let k = choose|k: int|
                    0 <= k < spans.len() && 0 <= k < spans.len() && span_contains(
                        #[trigger] spans[k],
                        n,
                    );
                if k < count - 1 {
                    assert(spans[k].last + 1 < spans[count - 1].first);
                }
            }
        }
        if count == 0 {
            true
        } else {
            let top = self.spans[count - 1].last;
            proof {
                assert(span_contains(spans[count - 1], top as int));
                assert(self@.contains(top as int));
            }
            top <= limit
        }
    }

    /// The members that are at most `limit`.
    pub fn limited(&self, limit: u32) -> (r: SeqRange)
        ensures
            r.wf(),
            r@ == self@.intersect(interval(1, limit as int)),
    {
        proof {
            use_type_invariant(self);
        }
        let ghost spans = self.spans@;
        let mut out: Vec<Span> = Vec::new();
        let mut i: usize = 0;
        while i < self.spans.len() && self.spans[i].last <= limit
            invariant
                i <= self.spans.len(),
                spans == self.spans@,
                normalized(spans),
                out@ == spans.take(i as int),
                forall|k: int| 0 <= k < i ==> (#[trigger] spans[k]).last <= limit,
            decreases self.spans.len() - i,
        {
            out.push(self.spans[i]);
            i += 1;
        }
        if i < self.spans.len() && self.spans[i].first <= limit {
            out.push(Span { first: self.spans[i].first, last: limit });
        }
        let ghost res = out@;
        proof {
            let cut = i as int;
            assert forall|k: int| cut <= k < spans.len() implies (#[trigger] spans[k]).last > limit by {
                if k > cut {
                    assert(spans[cut].last + 1 < spans[k].first);
                }
            }
            assert forall|k: int| cut < k < spans.len() implies (#[trigger] spans[k]).first > limit by {
                assert(spans[cut].last + 1 < spans[k].first);
            }
            assert forall|a: int| 0 <= a < res.len() implies 1 <= (#[trigger] res[a]).first
                <= res[a].last by {
                if a < cut {
                    assert(res[a] == spans[a]);
                }
            }
            assert forall|a: int, b: int| 0 <= a < b < res.len() implies (#[trigger] res[a]).last + 1
                < (#[trigger] res[b]).first by {
                assert(res[a] == spans[a]);
                if b < cut {
                    assert(res[b] == spans[b]);
                    assert(spans[a].last + 1 < spans[b].first);
                } else {
                    assert(spans[a].last + 1 < spans[cut].first);
                }
            }
            let target = spans_set(spans).intersect(interval(1, limit as int));
            assert forall|m: int| spans_set(res).contains(m) implies target.contains(m) by {
                let t = choose|t: int|
                    0 <= t < res.len() && 0 <= t < res.len() && span_contains(#[trigger] res[t], m);
                if t < cut {
                    assert(span_contains(spans[t], m));
                } else {
                    assert(span_contains(spans[cut], m));
                }
            }
            assert forall|m: int| target.contains(m) implies spans_set(res).contains(m) by {
                let k = choose|k: int|
                    0 <= k < spans.len() && 0 <= k < spans.len() && span_contains(
                        #[trigger] spans[k],
                        m,
                    );
                if k < cut {
                    assert(span_contains(res[k], m));
                } else if k == cut {
                    assert(span_contains(res[cut], m));
                }
            }
            assert(spans_set(res) =~= target);
        }
        SeqRange { spans: out }
    }

    /// The range with the numbers from `first` to `last` added.
    pub fn with_span(self, first: u32, last: u32) -> (r: SeqRange)
        requires
            1 <= first <= last,
        ensures
            r.wf(),
            r@ == self@.union(interval(first as int, last as int)),
    {
        proof {
            use_type_invariant(&self);
        }
        let ghost spans = self.spans@;
        let n = self.spans.len();
        let mut out: Vec<Span> = Vec::new();
        let mut i: usize = 0;
        while i < n && self.spans[i].last < first - 1
            invariant
                i <= n == spans.len(),
                1 <= first,
                spans == self.spans@,
                out@ == spans.take(i as int),
                forall|k: int| 0 <= k < i ==> (#[trigger] spans[k]).last + 1 < first,
            decreases n - i,
        {
            out.push(self.spans[i]);
            i += 1;
        }
        let ghost i0 = i as int;
        let mut lo: u32 = first;
        let mut hi: u32 = last;
        while i < n && self.spans[i].first - 1 <= hi
            invariant
                0 <= i0 <= i <= n == spans.len(),
                spans == self.spans@,
                normalized(spans),
                1 <= lo <= first <= last <= hi,
                i0 < n ==> spans[i0].last + 1 >= first,
                forall|k: int| 0 <= k < i0 ==> (#[trigger] spans[k]).last + 1 < lo,
                forall|k: int|
                    i0 <= k < i ==> lo <= (#[trigger] spans[k]).first && spans[k].last <= hi,
                forall|m: int|
                    lo <= m <= hi ==> first <= m <= last || #[trigger] covered(
                        spans,
                        i0,
                        i as int,
                        m,
                    ),
            decreases n - i,
        {
            let s = self.spans[i];
            let ghost old_lo = lo;
            let ghost old_hi = hi;
            proof {
                if i > i0 {
                    assert(spans[i - 1].last + 1 < spans[i as int].first);
                }
            }
            if s.first < lo {
                lo = s.first;
            }
            if s.last > hi {
                hi = s.last;
            }
            proof {
                assert forall|m: int| lo <= m <= hi implies first <= m <= last || #[trigger] covered(
                    spans,
                    i0,
                    i + 1,
                    m,
                ) by {
                    if old_lo <= m <= old_hi {
                        if covered(spans, i0, i as int, m) {
                            let k = choose|k: int|
                                i0 <= k < i && 0 <= k < spans.len() && span_contains(
                                    #[trigger] spans[k],
                                    m,
                                );
                            assert(span_contains(spans[k], m));
                        }
                    } else {
                        assert(span_contains(spans[i as int], m));
                    }
                }
                assert forall|k: int| 0 <= k < i0 implies (#[trigger] spans[k]).last + 1 < lo by {
                    assert(spans[k].last + 1 < spans[i as int].first);
                }
            }
            i += 1;
        }
        let ghost j = i as int;
        out.push(Span { first: lo, last: hi });
        while i < n
            invariant
                0 <= i0 <= j <= i <= n == spans.len(),
                spans == self.spans@,
                out@ == spans.take(i0).push(Span { first: lo, last: hi }) + spans.subrange(
                    j,
                    i as int,
                ),
            decreases n - i,
        {
            out.push(self.spans[i]);
            i += 1;
        }
        let ghost res = out@;
        let ghost mid = Span { first: lo, last: hi };
        proof {
            assert(res.len() == i0 + 1 + (n - j));
            assert forall|t: int| 0 <= t < res.len() implies #[trigger] res[t] == (if t < i0 {
                spans[t]
            } else if t == i0 {
                mid
            } else {
                spans[t - i0 - 1 + j]
            }) by {}
            assert forall|k: int| j <= k < n implies hi + 1 < (#[trigger] spans[k]).first by {
                if k > j {
                    assert(spans[j].last + 1 < spans[k].first);
                }
            }
            assert(normalized(res)) by {
                assert forall|a: int| 0 <= a < res.len() implies 1 <= (#[trigger] res[a]).first
                    <= res[a].last by {
                    if a < i0 {
                        assert(res[a] == spans[a]);
                    } else if a > i0 {
                        assert(res[a] == spans[a - i0 - 1 + j]);
                    }
                }
                assert forall|a: int, b: int| 0 <= a < b < res.len() implies (#[trigger] res[a]).last
                    + 1 < (#[trigger] res[b]).first by {
                    if b < i0 {
                        assert(spans[a].last + 1 < spans[b].first);
                    } else if b == i0 {
                        assert(spans[a].last + 1 < lo);
                    } else if a < i0 {
                        assert(spans[a].last + 1 < lo);
                        assert(hi + 1 < spans[b - i0 - 1 + j].first);
                    } else if a == i0 {
                        assert(hi + 1 < spans[b - i0 - 1 + j].first);
                    } else {
                        assert(spans[a - i0 - 1 + j].last + 1 < spans[b - i0 - 1 + j].first);
                    }
                }
            }
            let target = spans_set(spans).union(interval(first as int, last as int));
            assert forall|m: int| spans_set(res).contains(m) implies target.contains(m) by {
                let t = choose|t: int|
                    0 <= t < res.len() && 0 <= t < res.len() && span_contains(#[trigger] res[t], m);
                if t < i0 {
                    assert(span_contains(spans[t], m));
                } else if t == i0 {
                    if covered(spans, i0, j, m) {
                        let k = choose|k: int|
                            i0 <= k < j && 0 <= k < spans.len() && span_contains(
                                #[trigger] spans[k],
                                m,
                            );
                        assert(span_contains(spans[k], m));
                    }
                } else {
                    assert(span_contains(spans[t - i0 - 1 + j], m));
                }
            }
            assert forall|m: int| target.contains(m) implies spans_set(res).contains(m) by {
                if first <= m <= last {
                    assert(span_contains(res[i0], m));
                } else {
                    let k = choose|k: int|
                        0 <= k < spans.len() && 0 <= k < spans.len() && span_contains(
                            #[trigger] spans[k],
                            m,
                        );
                    if k < i0 {
                        assert(span_contains(res[k], m));
                    } else if k < j {
                        assert(span_contains(res[i0], m));
                    } else {
                        assert(res[k - j + i0 + 1] == spans[k]);
                        assert(span_contains(res[k - j + i0 + 1], m));
                    }
                }
            }
            assert(spans_set(res) =~= target);
        }
        SeqRange { spans: out }
    }
}

impl Clone for SeqRange {
    fn clone(&self) -> (r: SeqRange)
        ensures
            r.wf(),
            r.spans() == self.spans(),
            r@ == self@,
    {
        proof {
            use_type_invariant(self);
        }
        let mut spans: Vec<Span> = Vec::new();
        let mut i: usize = 0;
        while i < self.spans.len()
            invariant
                i <= self.spans.len(),
                spans@ == self.spans@.take(i as int),
            decreases self.spans.len() - i,
        {
            spans.push(self.spans[i]);
            i += 1;
        }
        assert(spans@ == self.spans@);
        SeqRange { spans }
    }
}

// ---------------------------------------------------------------------------
// The textual form
// ---------------------------------------------------------------------------

/// What one token of a range text denotes: a bare positive number `n` is
/// the span from `n` to `n`; `first:last` with `1 <= first <= last` is that
/// span; anything else denotes nothing.
pub open spec fn token_span(tok: Seq<char>) -> Option<(int, int)> {
    let k = find_char(tok, ':');
    if 0 <= k < tok.len() {
        match (number_of(tok.take(k)), number_of(tok.skip(k + 1))) {
            (Some(a), Some(b)) => if 1 <= a <= b {
                Some((a, b))
            } else {
                None
            },
            _ => None,
        }
    } else {
        match number_of(tok) {
            Some(n) => if 1 <= n {
                Some((n, n))
            } else {
                None
            },
            None => None,
        }
    }
}

/// The token denotes a span that holds `n`.
pub open spec fn token_holds(tok: Seq<char>, n: int) -> bool {
    match token_span(tok) {
        Some((a, b)) => a <= n <= b,
        None => false,
    }
}

pub open spec fn tokens_valid(tokens: Seq<Seq<char>>) -> bool {
    forall|i: int| 0 <= i < tokens.len() ==> token_span(#[trigger] tokens[i]) is Some
}

/// The numbers that the tokens hold together.
pub open spec fn tokens_set(tokens: Seq<Seq<char>>) -> Set<int> {
    Set::new(|n: int| exists|i: int| 0 <= i < tokens.len() && token_holds(#[trigger] tokens[i], n))
}

/// The index of the first token that denotes nothing, or the number of
/// tokens where all are valid.
pub open spec fn first_invalid(tokens: Seq<Seq<char>>) -> int
    decreases tokens.len(),
{
    if tokens.len() == 0 {
        0
    } else if token_span(tokens[0]) is None {
        0
    } else {
        1 + first_invalid(tokens.drop_first())
    }
}

/// The set that a range text denotes: the text is cut at its commas, and
/// every piece must be a valid token. The empty text is one empty piece,
/// which is no token.
pub open spec fn range_of_text(text: Seq<char>) -> Option<Set<int>> {
    let tokens = split(text, ',');
    if tokens_valid(tokens) {
        Some(tokens_set(tokens))
    } else {
        None
    }
}

/// The first piece of an invalid range text that is no token.
pub open spec fn invalid_token(text: Seq<char>) -> Seq<char> {
    let tokens = split(text, ',');
    tokens[first_invalid(tokens)]
}

/// The text of one span: the number alone where the span has one member.
pub open spec fn span_text(s: Span) -> Seq<char> {
    if s.first == s.last {
        decimal(s.first as nat)
    } else {
        decimal(s.first as nat) + seq![':'] + decimal(s.last as nat)
    }
}

/// The text of a span list: the texts of the spans, with commas between.
pub open spec fn spans_text(spans: Seq<Span>) -> Seq<char> {
    join(spans.map_values(|s: Span| span_text(s)), ',')
}

proof fn lemma_first_invalid_is(tokens: Seq<Seq<char>>, k: int)
    requires
        0 <= k < tokens.len(),
        forall|i: int| 0 <= i < k ==> token_span(#[trigger] tokens[i]) is Some,
        token_span(tokens[k]) is None,
    ensures
        first_invalid(tokens) == k,
    decreases tokens.len(),
{
    if k > 0 {
        let rest = tokens.drop_first();
        assert(token_span(tokens[0]) is Some);
        assert forall|i: int| 0 <= i < k - 1 implies token_span(#[trigger] rest[i]) is Some by {
            assert(rest[i] == tokens[i + 1]);
        }
        assert(rest[k - 1] == tokens[k]);
        lemma_first_invalid_is(rest, k - 1);
    }
}

proof fn lemma_tokens_set_push(tokens: Seq<Seq<char>>, tok: Seq<char>, a: int, b: int)
    requires
        token_span(tok) == Some((a, b)),
    ensures
        tokens_set(tokens.push(tok)) == tokens_set(tokens).union(interval(a, b)),
{
    let all = tokens.push(tok);
    assert forall|n: int| tokens_set(all).contains(n) implies tokens_set(tokens).union(
        interval(a, b),
    ).contains(n) by {
        let i = choose|i: int| 0 <= i < all.len() && token_holds(#[trigger] all[i], n);
        if i < tokens.len() {
            assert(token_holds(tokens[i], n));
        }
    }
    assert forall|n: int| tokens_set(tokens).union(interval(a, b)).contains(n) implies tokens_set(
        all,
    ).contains(n) by {
        if tokens_set(tokens).contains(n) {
            let i = choose|i: int| 0 <= i < tokens.len() && token_holds(#[trigger] tokens[i], n);
            assert(token_holds(all[i], n));
        } else {
            assert(token_holds(all[tokens.len() as int], n));
        }
    }
    assert(tokens_set(all) =~= tokens_set(tokens).union(interval(a, b)));
}

/// Reads `chars[start..end]` as one token of a range text.
fn parse_token(chars: &Vec<char>, start: usize, end: usize) -> (r: Option<Span>)
    requires
        start <= end <= chars.len(),
    ensures
        match r {
            Some(s) => token_span(chars@.subrange(start as int, end as int)) == Some(
                (s.first as int, s.last as int),
            ),
            None => token_span(chars@.subrange(start as int, end as int)) is None,
        },
{
    let ghost tok = chars@.subrange(start as int, end as int);
    let k = find_from(chars, start, end, ':');
    if k < end {
        assert(tok.take(k - start) == chars@.subrange(start as int, k as int));
        assert(tok.skip(k - start + 1) == chars@.subrange(k + 1, end as int));
        let a = parse_number(chars, start, k);
        let b = parse_number(chars, k + 1, end);
        match (a, b) {
            (Some(a), Some(b)) => {
                if 1 <= a && a <= b {
                    Some(Span { first: a, last: b })
                } else {
                    None
                }
            },
            _ => None,
        }
    } else {
        match parse_number(chars, start, end) {
            Some(n) => {
                if 1 <= n {
                    Some(Span { first: n, last: n })
                } else {
                    None
                }
            },
            None => None,
        }
    }
}

/// Parses a range text such as `1,3:5,9`.
///
/// The text is a comma-separated list of tokens, each a positive number or
/// `first:last` with `first <= last`. The result holds every number that
/// some token holds. A text with a piece that is no token is rejected, and
/// the error carries the first such piece; the empty text is rejected with
/// the empty piece.
pub fn parse_range(text: &str) -> (r: Result<SeqRange, Error>)
    ensures
        match r {
            Ok(range) => range.wf() && range_of_text(text@) == Some(range@),
            Err(e) => range_of_text(text@) is None && e@ == ErrorView::Parse(invalid_token(text@)),
        },
{
    let chars = chars_of(text);
    let n = chars.len();
    let mut range = SeqRange::empty();
    let mut start: usize = 0;
    let mut finished = false;
    let ghost mut done: Seq<Seq<char>> = Seq::empty();
    assert(chars@.skip(0) == chars@);
    assert(tokens_set(done) =~= Set::<int>::empty());
    while !finished
        invariant
            start <= n == chars.len(),
            chars@ == text@,
            !finished ==> split(chars@, ',') == done + split(chars@.skip(start as int), ','),
            finished ==> split(chars@, ',') == done,
            tokens_valid(done),
            range.wf(),
            range@ == tokens_set(done),
        decreases
                (if finished {
                    0
                } else {
                    1 + n - start
                }),
    {
        let end = find_from(&chars, start, n, ',');
        let ghost rest = chars@.skip(start as int);
        let ghost tok = chars@.subrange(start as int, end as int);
        proof {
            assert(rest == chars@.subrange(start as int, n as int));
            if end < n {
                assert(rest.take(end - start) == tok);
                assert(rest.skip(end - start + 1) == chars@.skip(end + 1));
                assert(split(chars@, ',') == done.push(tok) + split(chars@.skip(end + 1), ','));
            } else {
                assert(rest == tok);
                assert(split(chars@, ',') == done.push(tok));
            }
            assert(split(chars@, ',')[done.len() as int] == tok);
        }
        match parse_token(&chars, start, end) {
            None => {
                proof {
                    let tokens = split(chars@, ',');
                    assert forall|i: int| 0 <= i < done.len() implies token_span(
                        #[trigger] tokens[i],
                    ) is Some by {
                        assert(tokens[i] == done[i]);
                    }
                    lemma_first_invalid_is(tokens, done.len() as int);
                }
                return Err(Error::Parse(string_of(&chars, start, end)));
            },
            Some(span) => {
                proof {
                    lemma_tokens_set_push(done, tok, span.first as int, span.last as int);
                    assert forall|i: int| 0 <= i < done.push(tok).len() implies token_span(
                        #[trigger] done.push(tok)[i],
                    ) is Some by {
                        if i < done.len() {
                            assert(done.push(tok)[i] == done[i]);
                        }
                    }
                    done = done.push(tok);
                }
                range = range.with_span(span.first, span.last);
            },
        }
        if end < n {
            start = end + 1;
        } else {
            finished = true;
        }
    }
    Ok(range)
}

impl SeqRange {
    /// The normalized text of the range: its spans ascending, with commas
    /// between; a span of one member as the number alone, any other as
    /// `first:last`. The empty range has the empty text.
    pub open spec fn text(&self) -> Seq<char> {
        spans_text(self.spans())
    }

    /// Writes the range in its normalized text.
    pub fn format(&self) -> (r: String)
        ensures
            self.wf(),
            r@ == self.text(),
    {
        proof {
            use_type_invariant(self);
        }
        let ghost parts = self.spans@.map_values(|s: Span| span_text(s));
        let mut out: Vec<char> = Vec::new();
        let mut i: usize = 0;
        while i < self.spans.len()
            invariant
                i <= self.spans.len(),
                parts == self.spans@.map_values(|s: Span| span_text(s)),
                out@ == join(parts.take(i as int), ','),
            decreases self.spans.len() - i,
        {
            let s = self.spans[i];
            let ghost before = out@;
            if i > 0 {
                out.push(',');
            }
            push_decimal(&mut out, s.first);
            if s.first != s.last {
                out.push(':');
                push_decimal(&mut out, s.last);
            }
            proof {
                let piece = span_text(s);
                assert(parts[i as int] == piece);
                assert(parts.take(i + 1) == parts.take(i as int).push(piece));
                if i > 0 {
                    lemma_join_push(parts.take(i as int), piece, ',');
                    assert(out@ == before + seq![','] + piece);
                } else {
                    assert(parts.take(1).len() == 1);
                    assert(out@ == piece);
                }
            }
            i += 1;
        }
        assert(parts.take(i as int) == parts);
        let r = string_of(&out, 0, out.len());
        assert(out@.subrange(0, out.len() as int) == out@);
        r
    }
}

// ---------------------------------------------------------------------------
// Laws of the textual form
// ---------------------------------------------------------------------------

/// The text of a span is one token, which denotes that span and holds no
/// comma.
pub proof fn lemma_span_text_token(s: Span)
    requires
        1 <= s.first <= s.last,
    ensures
        token_span(span_text(s)) == Some((s.first as int, s.last as int)),
        !span_text(s).contains(','),
{
    let d1 = decimal(s.first as nat);
    let d2 = decimal(s.last as nat);
    lemma_decimal_roundtrip(s.first as nat);
    lemma_decimal_roundtrip(s.last as nat);
    let text = span_text(s);
    if s.first == s.last {
        assert forall|i: int| 0 <= i < d1.len() implies d1[i] != ':' by {}
        lemma_find_char_is(d1, ':', d1.len() as int);
        assert forall|i: int| 0 <= i < text.len() implies text[i] != ',' by {}
    } else {
        let k = d1.len() as int;
        assert forall|i: int| 0 <= i < k implies text[i] != ':' by {
            assert(text[i] == d1[i]);
        }
        assert(text[k] == ':');
        lemma_find_char_is(text, ':', k);
        assert(text.take(k) == d1);
        assert(text.skip(k + 1) == d2);
        assert forall|i: int| 0 <= i < text.len() implies text[i] != ',' by {
            if i < k {
                assert(text[i] == d1[i]);
            } else if i > k {
                assert(text[i] == d2[i - k - 1]);
            }
        }
    }
}

/// The text of a non-empty normalized span list is a valid range text, and
/// denotes exactly the numbers that the spans hold.
pub proof fn lemma_text_parses_back(spans: Seq<Span>)
    requires
        normalized(spans),
        spans.len() > 0,
    ensures
        range_of_text(spans_text(spans)) == Some(spans_set(spans)),
{
    let parts = spans.map_values(|s: Span| span_text(s));
    assert forall|i: int| 0 <= i < parts.len() implies !(#[trigger] parts[i]).contains(',')
        && token_span(parts[i]) == Some((spans[i].first as int, spans[i].last as int)) by {
        lemma_span_text_token(spans[i]);
    }
    lemma_split_join(parts, ',');
    assert forall|n: int| tokens_set(parts).contains(n) implies spans_set(spans).contains(n) by {
        let i = choose|i: int| 0 <= i < parts.len() && token_holds(#[trigger] parts[i], n);
        assert(span_contains(spans[i], n));
    }
    assert forall|n: int| spans_set(spans).contains(n) implies tokens_set(parts).contains(n) by {
        let i = choose|i: int|
            0 <= i < spans.len() && 0 <= i < spans.len() && span_contains(#[trigger] spans[i], n);
        assert(token_holds(parts[i], n));
    }
    assert(tokens_set(parts) =~= spans_set(spans));
}

/// A valid range text denotes at least one number.
pub proof fn lemma_valid_text_has_member(text: Seq<char>)
    requires
        range_of_text(text) is Some,
    ensures
        range_of_text(text).unwrap() != Set::<int>::empty(),
{
    let tokens = split(text, ',');
    assert(tokens.len() > 0);
    let (a, b) = token_span(tokens[0]).unwrap();
    assert(token_holds(tokens[0], a));
    assert(tokens_set(tokens).contains(a));
}

proof fn lemma_head_of_normalized(a: Seq<Span>, n: int)
    requires
        normalized(a),
        a.len() > 0,
    ensures
        spans_set(a).contains(n) ==> a[0].first <= n,
        spans_set(a).contains(a[0].first as int),
        spans_set(a).contains(a[0].last as int),
        !spans_set(a).contains(a[0].last + 1),
        spans_set(a.drop_first()).contains(n) <==> spans_set(a).contains(n) && !span_contains(
            a[0],
            n,
        ),
{
    let t = a.drop_first();
    if spans_set(a).contains(n) {
        let k = choose|k: int|
            0 <= k < a.len() && 0 <= k < a.len() && span_contains(#[trigger] a[k], n);
        if k > 0 {
            assert(a[0].last + 1 < a[k].first);
            assert(t[k - 1] == a[k]);
            assert(span_contains(t[k - 1], n));
        }
    }
    assert(span_contains(a[0], a[0].first as int));
    assert(span_contains(a[0], a[0].last as int));
    if spans_set(a).contains(a[0].last + 1) {
        let k = choose|k: int|
            0 <= k < a.len() && 0 <= k < a.len() && span_contains(#[trigger] a[k], a[0].last + 1);
        if k > 0 {
            assert(a[0].last + 1 < a[k].first);
        }
    }
    if spans_set(t).contains(n) {
        let k = choose|k: int|
            0 <= k < t.len() && 0 <= k < t.len() && span_contains(#[trigger] t[k], n);
        assert(t[k] == a[k + 1]);
        assert(span_contains(a[k + 1], n));
        assert(a[0].last + 1 < a[k + 1].first);
    }
}

/// A set of numbers has at most one normalized span list.
pub proof fn lemma_normal_form_unique(a: Seq<Span>, b: Seq<Span>)
    requires
        normalized(a),
        normalized(b),
        spans_set(a) == spans_set(b),
    ensures
        a == b,
    decreases a.len(),
{
    if a.len() == 0 {
        if b.len() > 0 {
            lemma_head_of_normalized(b, 0);
            assert(spans_set(a).contains(b[0].first as int));
        }
        assert(a =~= b);
    } else if b.len() == 0 {
        lemma_head_of_normalized(a, 0);
        assert(spans_set(b).contains(a[0].first as int));
    } else {
        lemma_head_of_normalized(a, b[0].first as int);
        lemma_head_of_normalized(b, a[0].first as int);
        assert(a[0].first == b[0].first);
        lemma_head_of_normalized(a, b[0].last as int);
        lemma_head_of_normalized(b, a[0].last as int);
        if a[0].last < b[0].last {
            assert(span_contains(b[0], a[0].last + 1));
            assert(spans_set(b).contains(a[0].last + 1));
        }
        if b[0].last < a[0].last {
            assert(span_contains(a[0], b[0].last + 1));
            assert(spans_set(a).contains(b[0].last + 1));
        }
        assert(a[0] == b[0]);
        let ta = a.drop_first();
        let tb = b.drop_first();
        assert forall|n: int| spans_set(ta).contains(n) == spans_set(tb).contains(n) by {
            lemma_head_of_normalized(a, n);
            lemma_head_of_normalized(b, n);
        }
        assert(spans_set(ta) =~= spans_set(tb));
        assert(normalized(ta)) by {
            assert forall|i: int| 0 <= i < ta.len() implies 1 <= (#[trigger] ta[i]).first
                <= ta[i].last by {
                assert(ta[i] == a[i + 1]);
            }
            assert forall|i: int, j: int| 0 <= i < j < ta.len() implies (#[trigger] ta[i]).last + 1
                < (#[trigger] ta[j]).first by {
                assert(ta[i] == a[i + 1] && ta[j] == a[j + 1]);
            }
        }
        assert(normalized(tb)) by {
            assert forall|i: int| 0 <= i < tb.len() implies 1 <= (#[trigger] tb[i]).first
                <= tb[i].last by {
                assert(tb[i] == b[i + 1]);
            }
            assert forall|i: int, j: int| 0 <= i < j < tb.len() implies (#[trigger] tb[i]).last + 1
                < (#[trigger] tb[j]).first by {
                assert(tb[i] == b[i + 1] && tb[j] == b[j + 1]);
            }
        }
        lemma_normal_form_unique(ta, tb);
        assert(a == seq![a[0]] + ta);
        assert(b == seq![b[0]] + tb);
    }
}

/// Round trip of the normalized text: where `range` is what a valid range
/// text denotes, the text of `range` is again a valid range text and
/// denotes the same numbers.
pub proof fn lemma_format_then_parse(text: Seq<char>, range: SeqRange)
    requires
        range.wf(),
        range_of_text(text) == Some(range@),
    ensures
        range_of_text(range.text()) == Some(range@),
{
    lemma_valid_text_has_member(text);
    if range.spans().len() == 0 {
        assert(range@ =~= Set::<int>::empty());
    }
    lemma_text_parses_back(range.spans());
}

/// The normalized text is determined by the members: two well-formed
/// ranges with the same members have the same text.
pub proof fn lemma_same_members_same_text(a: SeqRange, b: SeqRange)
    requires
        a.wf(),
        b.wf(),
        a@ == b@,
    ensures
        a.text() == b.text(),
{
    lemma_normal_form_unique(a.spans(), b.spans());
}

} // verus!
