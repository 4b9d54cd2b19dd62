//! Accounts, mailboxes and messages, with their mathematical values.

use crate::flag::{FlagSet, FlagView};
use vstd::prelude::*;

verus! {

/// A mail address with an optional display name (empty where there is none).
#[derive(Debug)]
pub struct Address {
    pub name: String,
    pub email: String,
}

pub ghost struct AddressView {
    pub name: Seq<char>,
    pub email: Seq<char>,
}

impl View for Address {
    type V = AddressView;

    open spec fn view(&self) -> AddressView {
        AddressView { name: self.name@, email: self.email@ }
    }
}

impl Clone for Address {
    fn clone(&self) -> (r: Address)
        ensures
            r@ == self@,
    {
        Address { name: self.name.clone(), email: self.email.clone() }
    }
}

/// A named binary payload carried by a message.
#[derive(Debug)]
pub struct Attachment {
    pub name: String,
    pub data: Vec<u8>,
}

pub ghost struct AttachmentView {
    pub name: Seq<char>,
    pub data: Seq<u8>,
}

impl View for Attachment {
    type V = AttachmentView;

    open spec fn view(&self) -> AttachmentView {
        AttachmentView { name: self.name@, data: self.data@ }
    }
}

impl Clone for Attachment {
    fn clone(&self) -> (r: Attachment)
        ensures
            r@ == self@,
    {
        let mut data: Vec<u8> = Vec::new();
        let mut i: usize = 0;
        while i < self.data.len()
            invariant
                i <= self.data.len(),
                data@ == self.data@.take(i as int),
            decreases self.data.len() - i,
        {
            data.push(self.data[i]);
            i += 1;
        }
        assert(data@ == self.data@);
        Attachment { name: self.name.clone(), data }
    }
}

pub open spec fn strings_view(v: Seq<String>) -> Seq<Seq<char>> {
    v.map_values(|s: String| s@)
}

pub open spec fn addresses_view(v: Seq<Address>) -> Seq<AddressView> {
    v.map_values(|a: Address| a@)
}

pub open spec fn attachments_view(v: Seq<Attachment>) -> Seq<AttachmentView> {
    v.map_values(|a: Attachment| a@)
}

pub open spec fn text_view(t: Option<String>) -> Option<Seq<char>> {
    match t {
        Some(s) => Some(s@),
        None => None,
    }
}

pub fn copy_strings(v: &Vec<String>) -> (r: Vec<String>)
    ensures
        strings_view(r@) == strings_view(v@),
{
    let mut out: Vec<String> = Vec::new();
    let mut i: usize = 0;
    while i < v.len()
        invariant
            i <= v.len(),
            out@.len() == i,
            forall|j: int| 0 <= j < i ==> (#[trigger] out@[j])@ == v@[j]@,
        decreases v.len() - i,
    {
        out.push(v[i].clone());
        i += 1;
    }
    assert(strings_view(out@) =~= strings_view(v@));
    out
}

pub fn copy_addresses(v: &Vec<Address>) -> (r: Vec<Address>)
    ensures
        addresses_view(r@) == addresses_view(v@),
{
    let mut out: Vec<Address> = Vec::new();
    let mut i: usize = 0;
    while i < v.len()
        invariant
            i <= v.len(),
            out@.len() == i,
            forall|j: int| 0 <= j < i ==> (#[trigger] out@[j])@ == v@[j]@,
        decreases v.len() - i,
    {
        out.push(v[i].clone());
        i += 1;
    }
    assert(addresses_view(out@) =~= addresses_view(v@));
    out
}

pub fn copy_attachments(v: &Vec<Attachment>) -> (r: Vec<Attachment>)
    ensures
        attachments_view(r@) == attachments_view(v@),
{
    let mut out: Vec<Attachment> = Vec::new();
    let mut i: usize = 0;
    while i < v.len()
        invariant
            i <= v.len(),
            out@.len() == i,
            forall|j: int| 0 <= j < i ==> (#[trigger] out@[j])@ == v@[j]@,
        decreases v.len() - i,
    {
        out.push(v[i].clone());
        i += 1;
    }
    assert(attachments_view(out@) =~= attachments_view(v@));
    out
}

pub fn copy_text(t: &Option<String>) -> (r: Option<String>)
    ensures
        text_view(r) == text_view(*t),
{
    match t {
        Some(s) => Some(s.clone()),
        None => None,
    }
}

/// A message: headers, flags, a body in plain and/or rich form, and
/// attachments. Absent text headers are empty strings.
#[derive(Debug)]
pub struct Msg {
    pub from: Address,
    pub to: Vec<Address>,
    pub cc: Vec<Address>,
    pub bcc: Vec<Address>,
    pub subject: String,
    pub date: String,
    pub message_id: String,
    pub in_reply_to: String,
    pub references: Vec<String>,
    pub flags: FlagSet,
    pub plain: Option<String>,
    pub rich: Option<String>,
    pub attachments: Vec<Attachment>,
}

pub ghost struct MsgView {
    pub from: AddressView,
    pub to: Seq<AddressView>,
    pub cc: Seq<AddressView>,
    pub bcc: Seq<AddressView>,
    pub subject: Seq<char>,
    pub date: Seq<char>,
    pub message_id: Seq<char>,
    pub in_reply_to: Seq<char>,
    pub references: Seq<Seq<char>>,
    pub flags: Set<FlagView>,
    pub plain: Option<Seq<char>>,
    pub rich: Option<Seq<char>>,
    pub attachments: Seq<AttachmentView>,
}

impl View for Msg {
    type V = MsgView;

    open spec fn view(&self) -> MsgView {
        MsgView {
            from: self.from@,
            to: addresses_view(self.to@),
            cc: addresses_view(self.cc@),
            bcc: addresses_view(self.bcc@),
            subject: self.subject@,
            date: self.date@,
            message_id: self.message_id@,
            in_reply_to: self.in_reply_to@,
            references: strings_view(self.references@),
            flags: self.flags@,
            plain: text_view(self.plain),
            rich: text_view(self.rich),
            attachments: attachments_view(self.attachments@),
        }
    }
}

impl Clone for Msg {
    fn clone(&self) -> (r: Msg)
        ensures
            r@ == self@,
    {
        Msg {
            from: self.from.clone(),
            to: copy_addresses(&self.to),
            cc: copy_addresses(&self.cc),
            bcc: copy_addresses(&self.bcc),
            subject: self.subject.clone(),
            date: self.date.clone(),
            message_id: self.message_id.clone(),
            in_reply_to: self.in_reply_to.clone(),
            references: copy_strings(&self.references),
            flags: self.flags.clone(),
            plain: copy_text(&self.plain),
            rich: copy_text(&self.rich),
            attachments: copy_attachments(&self.attachments),
        }
    }
}

/// The message with its bodies and attachments left out.
pub open spec fn headers_of(m: MsgView) -> MsgView {
    MsgView { plain: None, rich: None, attachments: Seq::empty(), ..m }
}

/// The message from `from` with every other header empty, no flags, an
/// empty plain body and no attachments.
pub open spec fn blank_from(from: AddressView) -> MsgView {
    MsgView {
        from,
        to: Seq::empty(),
        cc: Seq::empty(),
        bcc: Seq::empty(),
        subject: Seq::empty(),
        date: Seq::empty(),
        message_id: Seq::empty(),
        in_reply_to: Seq::empty(),
        references: Seq::empty(),
        flags: Set::empty(),
        plain: Some(Seq::empty()),
        rich: None,
        attachments: Seq::empty(),
    }
}

impl Msg {
    /// A message from `from` with nothing else filled in.
    pub fn blank(from: Address) -> (r: Msg)
        ensures
            r@ == blank_from(from@),
    {
        let r = Msg {
            from,
            to: Vec::new(),
            cc: Vec::new(),
            bcc: Vec::new(),
            subject: String::new(),
            date: String::new(),
            message_id: String::new(),
            in_reply_to: String::new(),
            references: Vec::new(),
            flags: FlagSet::new(),
            plain: Some(String::new()),
            rich: None,
            attachments: Vec::new(),
        };
        assert(r@.to =~= Seq::empty());
        assert(r@.cc =~= Seq::empty());
        assert(r@.bcc =~= Seq::empty());
        assert(r@.references =~= Seq::empty());
        assert(r@.attachments =~= Seq::empty());
        r
    }

    /// The headers and flags of the message, without bodies and
    /// attachments.
    pub fn headers_only(&self) -> (r: Msg)
        ensures
            r@ == headers_of(self@),
    {
        let r = Msg {
            from: self.from.clone(),
            to: copy_addresses(&self.to),
            cc: copy_addresses(&self.cc),
            bcc: copy_addresses(&self.bcc),
            subject: self.subject.clone(),
            date: self.date.clone(),
            message_id: self.message_id.clone(),
            in_reply_to: self.in_reply_to.clone(),
            references: copy_strings(&self.references),
            flags: self.flags.clone(),
            plain: None,
            rich: None,
            attachments: Vec::new(),
        };
        assert(r@.attachments =~= Seq::empty());
        r
    }
}

/// Where and as whom to log in to a service.
#[derive(Debug)]
pub struct Endpoint {
    pub host: String,
    pub port: u16,
    pub login: String,
    pub secret: String,
}

/// A mail account: the identity that messages are written under, the
/// endpoints for retrieval and delivery, and the default mailbox.
#[derive(Debug)]
pub struct Account {
    pub name: String,
    pub email: String,
    pub retrieval: Endpoint,
    pub delivery: Endpoint,
    pub default_mailbox: String,
}

impl Account {
    /// The address that the account writes under.
    pub open spec fn identity(&self) -> AddressView {
        AddressView { name: self.name@, email: self.email@ }
    }

    pub fn address(&self) -> (r: Address)
        ensures
            r@ == self.identity(),
    {
        Address { name: self.name.clone(), email: self.email.clone() }
    }
}

/// The name of a remote folder.
#[derive(Debug)]
pub struct Mbox {
    pub name: String,
}

impl Mbox {
    /// The mailbox called `name`.
    pub fn new(name: &str) -> (r: Mbox)
        ensures
            r.name@ == name@,
    {
        Mbox { name: String::from_str(name) }
    }

    /// The mailbox called `name`, or `INBOX` where no name is given.
    pub fn or_inbox(name: Option<&str>) -> (r: Mbox)
        ensures
            r.name@ == (match name {
                Some(n) => n@,
                None => "INBOX"@,
            }),
    {
        match name {
            Some(n) => Mbox::new(n),
            None => Mbox::new("INBOX"),
        }
    }
}

} // verus!
