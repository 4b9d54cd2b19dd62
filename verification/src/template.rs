//! The template engine: drafts for new messages, replies and forwards.

use crate::msg::{
    addresses_view, blank_from, copy_attachments, copy_strings, strings_view, Account, Address,
    AddressView, AttachmentView, Msg, MsgView,
};
use crate::text::{
    chars_of, eq_ignore_case, find_char, find_from, matches_ignore_case, push_str,
    starts_with_ignore_case, string_of,
};
use vstd::prelude::*;

verus! {

/// How a template was derived.
#[derive(Clone, Copy, Debug, PartialEq, Eq, Structural)]
pub enum TemplateKind {
    New,
    Reply,
    ReplyAll,
    Forward,
}

/// A draft message, ready for local editing before it is sent.
#[derive(Debug)]
pub struct Template {
    pub kind: TemplateKind,
    pub msg: Msg,
}

pub ghost struct TemplateView {
    pub kind: TemplateKind,
    pub msg: MsgView,
}

impl View for Template {
    type V = TemplateView;

    open spec fn view(&self) -> TemplateView {
        TemplateView { kind: self.kind, msg: self.msg@ }
    }
}

// ---------------------------------------------------------------------------
// What a template holds
// ---------------------------------------------------------------------------

/// `subject` with `prefix` and a blank put before it, unless it begins with
/// `prefix` already (up to the case of ASCII letters).
pub open spec fn with_prefix(subject: Seq<char>, prefix: Seq<char>) -> Seq<char> {
    if starts_with_ignore_case(subject, prefix) {
        subject
    } else {
        prefix + seq![' '] + subject
    }
}

pub open spec fn reply_subject(subject: Seq<char>) -> Seq<char> {
    with_prefix(subject, "Re:"@)
}

pub open spec fn forward_subject(subject: Seq<char>) -> Seq<char> {
    with_prefix(subject, "Fwd:"@)
}

/// How an address is written in running text.
pub open spec fn display(a: AddressView) -> Seq<char> {
    if a.name.len() == 0 {
        a.email
    } else {
        a.name + " <"@ + a.email + ">"@
    }
}

/// The line that introduces a quoted message.
pub open spec fn reply_attribution(source: MsgView) -> Seq<char> {
    "On "@ + source.date + ", "@ + display(source.from) + " wrote:"@
}

/// The line that introduces a forwarded message.
pub open spec fn forward_attribution(source: MsgView) -> Seq<char> {
    "Forwarded message from "@ + display(source.from) + " on "@ + source.date + ":"@
}

/// The plain body of a message; empty where it has none.
pub open spec fn plain_body(m: MsgView) -> Seq<char> {
    match m.plain {
        Some(body) => body,
        None => Seq::empty(),
    }
}

/// `body` with `> ` put before each of its lines. Every quoted line ends
/// in a line feed, also a last line that did not.
pub open spec fn quoted(body: Seq<char>) -> Seq<char>
    decreases body.len(),
{
    if body.len() == 0 {
        Seq::empty()
    } else {
        let k = find_char(body, '\n');
        if 0 <= k < body.len() {
            seq!['>', ' '] + body.take(k) + seq!['\n'] + quoted(body.skip(k + 1))
        } else {
            seq!['>', ' '] + body + seq!['\n']
        }
    }
}

/// The body of a reply: an empty line, the attribution line, then the
/// source's plain body quoted.
pub open spec fn reply_body(source: MsgView) -> Seq<char> {
    seq!['\n'] + reply_attribution(source) + seq!['\n'] + quoted(plain_body(source))
}

/// The body of a forward: the attribution line, then the source's plain
/// body as it is.
pub open spec fn forward_body(source: MsgView) -> Seq<char> {
    forward_attribution(source) + seq!['\n'] + plain_body(source)
}

/// Two mail addresses name the same mailbox.
pub open spec fn same_mailbox(a: Seq<char>, b: Seq<char>) -> bool {
    eq_ignore_case(a, b)
}

/// An earlier candidate names the mailbox of candidate `i`.
pub open spec fn seen_before(candidates: Seq<AddressView>, i: int) -> bool {
    exists|j: int| 0 <= j < i && same_mailbox((#[trigger] candidates[j]).email, candidates[i].email)
}

/// The candidates in order, without `me` and without repeats of a mailbox
/// that an earlier candidate names.
pub open spec fn recipients(candidates: Seq<AddressView>, me: Seq<char>) -> Seq<AddressView>
    decreases candidates.len(),
{
    if candidates.len() == 0 {
        Seq::empty()
    } else {
        let last = candidates.len() - 1;
        let before = recipients(candidates.drop_last(), me);
        if same_mailbox(candidates[last].email, me) || seen_before(candidates, last) {
            before
        } else {
            before.push(candidates[last])
        }
    }
}

/// Whom a reply goes to: the sender of the source; for a reply to all, the
/// sender and everyone in `to` and `cc`, without the replying account and
/// without repeats.
pub open spec fn reply_recipients(source: MsgView, me: Seq<char>, all: bool) -> Seq<AddressView> {
    if all {
        recipients(seq![source.from] + source.to + source.cc, me)
    } else {
        seq![source.from]
    }
}

/// The reference chain of a reply: that of the source, extended by the
/// source's own message id where it has one.
pub open spec fn extended_references(source: MsgView) -> Seq<Seq<char>> {
    if source.message_id.len() == 0 {
        source.references
    } else {
        source.references.push(source.message_id)
    }
}

pub open spec fn new_template(identity: AddressView) -> TemplateView {
    TemplateView { kind: TemplateKind::New, msg: blank_from(identity) }
}

pub open spec fn reply_template(identity: AddressView, source: MsgView, all: bool) -> TemplateView {
    TemplateView {
        kind: if all {
            TemplateKind::ReplyAll
        } else {
            TemplateKind::Reply
        },
        msg: MsgView {
            to: reply_recipients(source, identity.email, all),
            subject: reply_subject(source.subject),
            in_reply_to: source.message_id,
            references: extended_references(source),
            plain: Some(reply_body(source)),
            ..blank_from(identity)
        },
    }
}

pub open spec fn forward_template(
    identity: AddressView,
    source: MsgView,
    with_attachments: bool,
) -> TemplateView {
    TemplateView {
        kind: TemplateKind::Forward,
        msg: MsgView {
            subject: forward_subject(source.subject),
            plain: Some(forward_body(source)),
            attachments: if with_attachments {
                source.attachments
            } else {
                Seq::empty()
            },
            ..blank_from(identity)
        },
    }
}

// ---------------------------------------------------------------------------
// Building blocks
// ---------------------------------------------------------------------------

/// Whether two texts are equal up to the case of ASCII letters.
pub fn same_text(a: &str, b: &str) -> (r: bool)
    ensures
        r == eq_ignore_case(a@, b@),
{
    let x = chars_of(a);
    let y = chars_of(b);
    assert(x@.subrange(0, x@.len() as int) == x@);
    matches_ignore_case(&x, 0, x.len(), &y)
}

/// Puts `prefix` before `subject` unless it is there already.
pub fn add_prefix(subject: &str, prefix: &str) -> (r: String)
    ensures
        r@ == with_prefix(subject@, prefix@),
{
    let s = chars_of(subject);
    let p = chars_of(prefix);
    if p.len() <= s.len() && matches_ignore_case(&s, 0, p.len(), &p) {
        String::from_str(subject)
    } else {
        let mut out: Vec<char> = Vec::new();
        push_str(&mut out, prefix);
        out.push(' ');
        push_str(&mut out, subject);
        assert(out@.subrange(0, out@.len() as int) == out@);
        string_of(&out, 0, out.len())
    }
}

fn push_display(out: &mut Vec<char>, a: &Address)
    ensures
        final(out)@ == old(out)@ + display(a@),
{
    if a.name.as_str().unicode_len() == 0 {
        push_str(out, a.email.as_str());
    } else {
        push_str(out, a.name.as_str());
        push_str(out, " <");
        push_str(out, a.email.as_str());
        push_str(out, ">");
        assert(out@ == old(out)@ + (a@.name + " <"@ + a@.email + ">"@));
    }
}

fn push_quoted(out: &mut Vec<char>, body: &str)
    ensures
        final(out)@ == old(out)@ + quoted(body@),
{
    let chars = chars_of(body);
    let n = chars.len();
    let mut i: usize = 0;
    assert(chars@.skip(0) == chars@);
    while i < n
        invariant
            i <= n == chars.len(),
            chars@ == body@,
            out@ + quoted(chars@.skip(i as int)) == old(out)@ + quoted(body@),
        decreases n - i,
    {
        let ghost rest = chars@.skip(i as int);
        let ghost before = out@;
        let k = find_from(&chars, i, n, '\n');
        assert(rest == chars@.subrange(i as int, n as int));
        out.push('>');
        out.push(' ');
        let mut j: usize = i;
        while j < k
            invariant
                i <= j <= k <= n == chars.len(),
                out@ == before + seq!['>', ' '] + chars@.subrange(i as int, j as int),
            decreases k - j,
        {
            out.push(chars[j]);
            j += 1;
        }
        out.push('\n');
        proof {
            if k < n {
                assert(rest.take(k - i) == chars@.subrange(i as int, k as int));
                assert(rest.skip(k - i + 1) == chars@.skip(k + 1));
                assert(out@ + quoted(chars@.skip(k + 1)) == before + quoted(rest));
            } else {
                assert(rest == chars@.subrange(i as int, k as int));
                assert(quoted(chars@.skip(n as int)) == Seq::<char>::empty());
                assert(out@ + quoted(chars@.skip(n as int)) == before + quoted(rest));
            }
        }
        if k < n {
            i = k + 1;
        } else {
            i = n;
        }
    }
    assert(quoted(chars@.skip(n as int)) == Seq::<char>::empty());
    assert(out@ + Seq::<char>::empty() == out@);
}

fn push_plain_body(out: &mut Vec<char>, source: &Msg, quote: bool)
    ensures
        final(out)@ == old(out)@ + (if quote {
            quoted(plain_body(source@))
        } else {
            plain_body(source@)
        }),
{
    match &source.plain {
        Some(body) => {
            if quote {
                push_quoted(out, body.as_str());
            } else {
                push_str(out, body.as_str());
            }
        },
        None => {
            assert(out@ + Seq::<char>::empty() == out@);
        },
    }
}

fn build_reply_body(source: &Msg) -> (r: String)
    ensures
        r@ == reply_body(source@),
{
    let mut out: Vec<char> = Vec::new();
    out.push('\n');
    push_str(&mut out, "On ");
    push_str(&mut out, source.date.as_str());
    push_str(&mut out, ", ");
    push_display(&mut out, &source.from);
    push_str(&mut out, " wrote:");
    out.push('\n');
    push_plain_body(&mut out, source, true);
    assert(out@ == reply_body(source@));
    assert(out@.subrange(0, out@.len() as int) == out@);
    string_of(&out, 0, out.len())
}

fn build_forward_body(source: &Msg) -> (r: String)
    ensures
        r@ == forward_body(source@),
{
    let mut out: Vec<char> = Vec::new();
    push_str(&mut out, "Forwarded message from ");
    push_display(&mut out, &source.from);
    push_str(&mut out, " on ");
    push_str(&mut out, source.date.as_str());
    push_str(&mut out, ":");
    out.push('\n');
    push_plain_body(&mut out, source, false);
    assert(out@ == forward_body(source@));
    assert(out@.subrange(0, out@.len() as int) == out@);
    string_of(&out, 0, out.len())
}

/// The candidates without `me` and without repeated mailboxes.
pub fn pick_recipients(candidates: &Vec<Address>, me: &str) -> (r: Vec<Address>)
    ensures
        addresses_view(r@) == recipients(addresses_view(candidates@), me@),
{
    let ghost cands = addresses_view(candidates@);
    let mut out: Vec<Address> = Vec::new();
    let mut i: usize = 0;
    assert(cands.take(0) == Seq::<AddressView>::empty());
    assert(addresses_view(out@) =~= Seq::<AddressView>::empty());
    while i < candidates.len()
        invariant
            i <= candidates.len(),
            cands == addresses_view(candidates@),
            addresses_view(out@) == recipients(cands.take(i as int), me@),
        decreases candidates.len() - i,
    {
        let a = &candidates[i];
        let ghost upto = cands.take(i + 1);
        let mut repeated = false;
        let mut j: usize = 0;
        while j < i
            invariant
                j <= i < candidates.len(),
                cands == addresses_view(candidates@),
                upto == cands.take(i + 1),
                a == candidates@[i as int],
                repeated == (exists|m: int|
                    0 <= m < j && same_mailbox((#[trigger] upto[m]).email, upto[i as int].email)),
            decreases i - j,
        {
            let same = same_text(candidates[j].email.as_str(), a.email.as_str());
            proof {
                assert(upto[j as int] == candidates@[j as int]@);
                assert(upto[i as int] == a@);
                if same {
                    assert(same_mailbox(upto[j as int].email, upto[i as int].email));
                } else if exists|m: int|
                    0 <= m < j + 1 && same_mailbox((#[trigger] upto[m]).email, upto[i as int].email) {
                    let m = choose|m: int|
                        0 <= m < j + 1 && same_mailbox(
                            (#[trigger] upto[m]).email,
                            upto[i as int].email,
                        );
                    assert(m < j);
                }
            }
            repeated = repeated || same;
            j += 1;
        }
        let ghost before = out@;
        let mine = same_text(a.email.as_str(), me);
        proof {
            assert(upto.drop_last() == cands.take(i as int));
            assert(upto[i as int] == a@);
            assert(repeated == seen_before(upto, i as int));
        }
        if !mine && !repeated {
            out.push(a.clone());
            assert(addresses_view(out@) =~= addresses_view(before).push(a@));
        }
        i += 1;
    }
    assert(cands.take(i as int) == cands);
    out
}

fn reply_all_candidates(source: &Msg) -> (r: Vec<Address>)
    ensures
        addresses_view(r@) == seq![source@.from] + source@.to + source@.cc,
{
    let mut out: Vec<Address> = Vec::new();
    out.push(source.from.clone());
    let mut i: usize = 0;
    while i < source.to.len()
        invariant
            i <= source.to.len(),
            out@.len() == 1 + i,
            out@[0]@ == source.from@,
            forall|j: int| 0 <= j < i ==> (#[trigger] out@[1 + j])@ == source.to@[j]@,
        decreases source.to.len() - i,
    {
        out.push(source.to[i].clone());
        i += 1;
    }
    let mut k: usize = 0;
    while k < source.cc.len()
        invariant
            k <= source.cc.len(),
            out@.len() == 1 + source.to.len() + k,
            out@[0]@ == source.from@,
            forall|j: int| 0 <= j < source.to.len() ==> (#[trigger] out@[1 + j])@ == source.to@[j]@,
            forall|j: int|
                0 <= j < k ==> (#[trigger] out@[1 + source.to.len() + j])@ == source.cc@[j]@,
        decreases source.cc.len() - k,
    {
        out.push(source.cc[k].clone());
        k += 1;
    }
    proof {
        let want = seq![source@.from] + source@.to + source@.cc;
        assert(addresses_view(out@).len() == want.len());
        assert forall|j: int| 0 <= j < want.len() implies addresses_view(out@)[j] == want[j] by {
            if j == 0 {
            } else if j < 1 + source.to.len() {
                assert(out@[1 + (j - 1)]@ == source.to@[j - 1]@);
            } else {
                let m = j - 1 - source.to.len();
                assert(out@[1 + source.to.len() + m]@ == source.cc@[m]@);
            }
        }
        assert(addresses_view(out@) =~= want);
    }
    out
}

impl Template {
    /// A draft for a new message: written under the account's identity,
    /// with nothing else filled in and an empty body.
    pub fn new(account: &Account) -> (r: Template)
        ensures
            r@ == new_template(account.identity()),
    {
        Template { kind: TemplateKind::New, msg: Msg::blank(account.address()) }
    }

    /// A draft for a reply to `source`.
    ///
    /// It goes to the sender of `source`; with `all`, to the sender and
    /// everyone in `to` and `cc`, without the account itself and without
    /// repeats. The subject gets `Re:` unless it has it already. The reply
    /// refers to the source's message id and extends its reference chain.
    /// The body is an empty line, the attribution line, and the source's
    /// plain body quoted; a source without a plain body leaves the
    /// attribution line alone.
    pub fn reply(account: &Account, source: &Msg, all: bool) -> (r: Template)
        ensures
            r@ == reply_template(account.identity(), source@, all),
            starts_with_ignore_case(source@.subject, "Re:"@) ==> r@.msg.subject == source@.subject,
    {
        let mut msg = Msg::blank(account.address());
        if all {
            let candidates = reply_all_candidates(source);
            msg.to = pick_recipients(&candidates, account.email.as_str());
        } else {
            let mut to: Vec<Address> = Vec::new();
            to.push(source.from.clone());
            assert(addresses_view(to@) =~= seq![source@.from]);
            msg.to = to;
        }
        msg.subject = add_prefix(source.subject.as_str(), "Re:");
        msg.in_reply_to = source.message_id.clone();
        let mut references = copy_strings(&source.references);
        if source.message_id.as_str().unicode_len() != 0 {
            let ghost before = references@;
            references.push(source.message_id.clone());
            assert(strings_view(references@) =~= strings_view(before).push(source.message_id@));
        }
        msg.references = references;
        msg.plain = Some(build_reply_body(source));
        let kind = if all {
            TemplateKind::ReplyAll
        } else {
            TemplateKind::Reply
        };
        Template { kind, msg }
    }

    /// A draft that forwards `source`.
    ///
    /// The subject gets `Fwd:` unless it has it already. The body is the
    /// attribution line and the source's plain body, not quoted. The
    /// attachments of the source are carried over, byte for byte, exactly
    /// when `with_attachments` is set.
    pub fn forward(account: &Account, source: &Msg, with_attachments: bool) -> (r: Template)
        ensures
            r@ == forward_template(account.identity(), source@, with_attachments),
            with_attachments ==> r@.msg.attachments == source@.attachments,
            !with_attachments ==> r@.msg.attachments == Seq::<AttachmentView>::empty(),
    {
        let mut msg = Msg::blank(account.address());
        msg.subject = add_prefix(source.subject.as_str(), "Fwd:");
        msg.plain = Some(build_forward_body(source));
        if with_attachments {
            msg.attachments = copy_attachments(&source.attachments);
        }
        Template { kind: TemplateKind::Forward, msg }
    }
}

// ---------------------------------------------------------------------------
// Laws
// ---------------------------------------------------------------------------

/// A subject is never prefixed twice: prefixing a prefixed subject changes
/// nothing.
pub proof fn lemma_prefix_once(subject: Seq<char>, prefix: Seq<char>)
    ensures
        with_prefix(with_prefix(subject, prefix), prefix) == with_prefix(subject, prefix),
{
    if !starts_with_ignore_case(subject, prefix) {
        let once = prefix + seq![' '] + subject;
        assert(once.take(prefix.len() as int) == prefix);
    }
}

} // verus!
