use himalaya::flag::FlagSet;
use himalaya::msg::{Account, Address, Attachment, Endpoint, Msg};
use himalaya::template::{add_prefix, pick_recipients, same_text, Template, TemplateKind};

fn endpoint(login: &str) -> Endpoint {
    Endpoint { host: "mail.x.org".to_string(), port: 993, login: login.to_string(), secret: "pw".to_string() }
}

fn account() -> Account {
    Account {
        name: "Me".to_string(),
        email: "me@x.org".to_string(),
        retrieval: endpoint("me"),
        delivery: endpoint("me"),
        default_mailbox: "INBOX".to_string(),
    }
}

fn addr(name: &str, email: &str) -> Address {
    Address { name: name.to_string(), email: email.to_string() }
}

fn source(subject: &str) -> Msg {
    let mut msg = Msg::blank(addr("Ann", "ann@x.org"));
    msg.to = vec![addr("", "me@x.org"), addr("Bob", "bob@x.org")];
    msg.cc = vec![addr("", "BOB@x.org"), addr("", "carl@x.org"), addr("", "ann@x.org")];
    msg.subject = subject.to_string();
    msg.date = "Mon, 1 Jan 2024".to_string();
    msg.message_id = "<m1@x.org>".to_string();
    msg.references = vec!["<m0@x.org>".to_string()];
    msg.plain = Some("a\nb\n".to_string());
    msg.attachments = vec![Attachment { name: "f.bin".to_string(), data: vec![0, 255, 7, 0] }];
    msg
}

fn emails(list: &[Address]) -> Vec<String> {
    list.iter().map(|a| a.email.clone()).collect()
}

#[test]
fn new_template_has_identity_only() {
    let tpl = Template::new(&account());
    assert_eq!(tpl.kind, TemplateKind::New);
    assert_eq!(tpl.msg.from.name, "Me");
    assert_eq!(tpl.msg.from.email, "me@x.org");
    assert!(tpl.msg.to.is_empty() && tpl.msg.cc.is_empty() && tpl.msg.bcc.is_empty());
    assert_eq!(tpl.msg.subject, "");
    assert_eq!(tpl.msg.plain.as_deref(), Some(""));
    assert!(tpl.msg.rich.is_none());
    assert!(tpl.msg.attachments.is_empty());
}

#[test]
fn reply_subject_is_never_prefixed_twice() {
    let tpl = Template::reply(&account(), &source("Re: hi"), false);
    assert_eq!(tpl.msg.subject, "Re: hi");
    assert_eq!(Template::reply(&account(), &source("RE: hi"), false).msg.subject, "RE: hi");
    assert_eq!(Template::reply(&account(), &source("re:hi"), true).msg.subject, "re:hi");
    assert_eq!(Template::reply(&account(), &source("hi"), false).msg.subject, "Re: hi");
    assert_eq!(Template::reply(&account(), &source(""), false).msg.subject, "Re: ");
    assert_eq!(Template::reply(&account(), &source("R"), false).msg.subject, "Re: R");
    let once = add_prefix("hello", "Re:");
    assert_eq!(add_prefix(&once, "Re:"), once);
}

#[test]
fn reply_goes_to_the_sender() {
    let tpl = Template::reply(&account(), &source("hi"), false);
    assert_eq!(tpl.kind, TemplateKind::Reply);
    assert_eq!(emails(&tpl.msg.to), vec!["ann@x.org"]);
    assert_eq!(tpl.msg.to[0].name, "Ann");
    assert!(tpl.msg.cc.is_empty());
    assert_eq!(tpl.msg.from.email, "me@x.org");
}

#[test]
fn reply_all_goes_to_everyone_but_me_once() {
    let tpl = Template::reply(&account(), &source("hi"), true);
    assert_eq!(tpl.kind, TemplateKind::ReplyAll);
    assert_eq!(emails(&tpl.msg.to), vec!["ann@x.org", "bob@x.org", "carl@x.org"]);
}

#[test]
fn reply_extends_the_reference_chain() {
    let tpl = Template::reply(&account(), &source("hi"), false);
    assert_eq!(tpl.msg.in_reply_to, "<m1@x.org>");
    assert_eq!(tpl.msg.references, vec!["<m0@x.org>", "<m1@x.org>"]);
    let mut bare = source("hi");
    bare.message_id = String::new();
    let tpl = Template::reply(&account(), &bare, false);
    assert_eq!(tpl.msg.in_reply_to, "");
    assert_eq!(tpl.msg.references, vec!["<m0@x.org>"]);
}

#[test]
fn reply_body_quotes_each_line() {
    let tpl = Template::reply(&account(), &source("hi"), false);
    assert_eq!(
        tpl.msg.plain.as_deref(),
        Some("\nOn Mon, 1 Jan 2024, Ann <ann@x.org> wrote:\n> a\n> b\n")
    );
    let mut open_end = source("hi");
    open_end.plain = Some("x\n\ny".to_string());
    open_end.from = addr("", "ann@x.org");
    let tpl = Template::reply(&account(), &open_end, false);
    assert_eq!(
        tpl.msg.plain.as_deref(),
        Some("\nOn Mon, 1 Jan 2024, ann@x.org wrote:\n> x\n> \n> y\n")
    );
}

#[test]
fn reply_without_body_keeps_the_attribution() {
    let mut msg = source("hi");
    msg.plain = None;
    msg.rich = Some("<p>a</p>".to_string());
    let tpl = Template::reply(&account(), &msg, false);
    assert_eq!(tpl.msg.plain.as_deref(), Some("\nOn Mon, 1 Jan 2024, Ann <ann@x.org> wrote:\n"));
    let tpl = Template::forward(&account(), &msg, false);
    assert_eq!(
        tpl.msg.plain.as_deref(),
        Some("Forwarded message from Ann <ann@x.org> on Mon, 1 Jan 2024:\n")
    );
}

#[test]
fn forward_carries_attachments_only_when_asked() {
    let with = Template::forward(&account(), &source("hi"), true);
    assert_eq!(with.kind, TemplateKind::Forward);
    assert_eq!(with.msg.attachments.len(), 1);
    assert_eq!(with.msg.attachments[0].name, "f.bin");
    assert_eq!(with.msg.attachments[0].data, vec![0, 255, 7, 0]);
    let without = Template::forward(&account(), &source("hi"), false);
    assert!(without.msg.attachments.is_empty());
}

#[test]
fn forward_subject_and_body() {
    let tpl = Template::forward(&account(), &source("hi"), false);
    assert_eq!(tpl.msg.subject, "Fwd: hi");
    assert_eq!(
        tpl.msg.plain.as_deref(),
        Some("Forwarded message from Ann <ann@x.org> on Mon, 1 Jan 2024:\na\nb\n")
    );
    assert!(tpl.msg.to.is_empty());
    assert_eq!(tpl.msg.in_reply_to, "");
    assert!(tpl.msg.references.is_empty());
    assert_eq!(Template::forward(&account(), &source("FWD: hi"), false).msg.subject, "FWD: hi");
    assert_eq!(Template::forward(&account(), &source("Re: hi"), false).msg.subject, "Fwd: Re: hi");
}

#[test]
fn templates_carry_no_flags() {
    let mut msg = source("hi");
    msg.flags = himalaya::flag::parse_flags("seen").unwrap();
    let tpl = Template::reply(&account(), &msg, true);
    assert!(!tpl.msg.flags.contains(&himalaya::flag::Flag::Seen));
    let empty = FlagSet::new();
    assert!(!empty.contains(&himalaya::flag::Flag::Seen));
}

#[test]
fn recipients_drop_self_and_repeats() {
    let list = vec![addr("", "a@x"), addr("", "ME@x"), addr("", "A@X"), addr("", "b@x")];
    assert_eq!(emails(&pick_recipients(&list, "me@x")), vec!["a@x", "b@x"]);
    assert!(same_text("Ab@x", "aB@X"));
    assert!(!same_text("ab@x", "ab@xy"));
}
