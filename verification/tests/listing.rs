use himalaya::command::{Operation, Outcome};
use himalaya::error::Error;
use himalaya::flag::{parse_flags, Flag, FlagSet};
use himalaya::folder::{matches_query, parse_query, text_contains, Entry, Folder, Query};
use himalaya::msg::{Account, Address, Endpoint, Mbox, Msg};
use himalaya::notify::{Wake, WatchMode, Watcher};
use himalaya::range::{parse_range, SeqRange};
use himalaya::session::Session;
use himalaya::store::Store;

fn endpoint() -> Endpoint {
    Endpoint { host: "h".to_string(), port: 1, login: "me".to_string(), secret: "pw".to_string() }
}

fn account() -> Account {
    Account {
        name: "Me".to_string(),
        email: "me@x.org".to_string(),
        retrieval: endpoint(),
        delivery: endpoint(),
        default_mailbox: "INBOX".to_string(),
    }
}

fn msg(subject: &str) -> Msg {
    let mut m = Msg::blank(Address { name: "Ann".to_string(), email: "ann@x.org".to_string() });
    m.subject = subject.to_string();
    m
}

fn open(count: usize) -> Session {
    let mut store = Store::new("me", "pw");
    store.add_folder("INBOX");
    let msgs: Vec<Msg> = (1..=count).map(|i| msg(&format!("m{}", i))).collect();
    assert!(store.arrive(0, msgs));
    let mut session = Session::new(store);
    session.connect(&account()).unwrap();
    session.select(&Mbox::new("INBOX")).unwrap();
    session
}

fn subjects(msgs: &[Msg]) -> Vec<String> {
    msgs.iter().map(|m| m.subject.clone()).collect()
}

#[test]
fn pages_cut_the_listing() {
    let session = open(7);
    assert_eq!(subjects(&session.list(None, 3, 0).unwrap()), vec!["m1", "m2", "m3"]);
    assert_eq!(subjects(&session.list(None, 3, 1).unwrap()), vec!["m4", "m5", "m6"]);
    assert_eq!(subjects(&session.list(None, 3, 2).unwrap()), vec!["m7"]);
    assert!(session.list(None, 3, 3).unwrap().is_empty());
    assert!(session.list(None, 0, 0).unwrap().is_empty());
    assert!(session.list(None, usize::MAX, 2).unwrap().is_empty());
    assert_eq!(session.list(None, usize::MAX, 0).unwrap().len(), 7);
    assert_eq!(session.list(None, 7, 0).unwrap().len(), 7);
}

#[test]
fn pages_of_a_search_show_headers() {
    let mut session = open(6);
    session.add_flags(&parse_range("2,4:6").unwrap(), &parse_flags("flagged").unwrap()).unwrap();
    let query = Query::With(Flag::Flagged);
    let page = session.list(Some(&query), 2, 1).unwrap();
    assert_eq!(subjects(&page), vec!["m5", "m6"]);
    assert!(page[0].plain.is_none());
    assert!(page[0].flags.contains(&Flag::Flagged));
    let mut closed = open(1);
    closed.logout();
    assert!(matches!(closed.list(None, 1, 0), Err(Error::InvalidState)));
    let mut s = open(3);
    match s.perform(&Operation::List(None, 2, 1)).unwrap() {
        Outcome::Messages(msgs) => assert_eq!(subjects(&msgs), vec!["m3"]),
        other => panic!("unexpected {:?}", other),
    }
}

#[test]
fn queries_are_read_from_text() {
    assert!(matches!(parse_query("all"), Ok(Query::All)));
    assert!(matches!(parse_query("ALL"), Ok(Query::All)));
    assert!(matches!(parse_query("with seen"), Ok(Query::With(Flag::Seen))));
    assert!(matches!(parse_query("Without DRAFT"), Ok(Query::Without(Flag::Draft))));
    match parse_query("with work") {
        Ok(Query::With(Flag::Custom(word))) => assert_eq!(word, "work"),
        other => panic!("unexpected {:?}", other),
    }
    match parse_query("subject weekly report") {
        Ok(Query::Subject(text)) => assert_eq!(text, "weekly report"),
        other => panic!("unexpected {:?}", other),
    }
    match parse_query("from ") {
        Ok(Query::From(text)) => assert_eq!(text, ""),
        other => panic!("unexpected {:?}", other),
    }
    for bad in ["", "subject", "all ", "since 2020", " all"] {
        match parse_query(bad) {
            Err(Error::Parse(token)) => assert_eq!(token, bad),
            other => panic!("unexpected {:?}", other),
        }
    }
}

#[test]
fn text_search_ignores_case() {
    assert!(text_contains("Weekly Report", "ly rep"));
    assert!(text_contains("abc", ""));
    assert!(text_contains("", ""));
    assert!(!text_contains("", "a"));
    assert!(!text_contains("abc", "abcd"));
    assert!(text_contains("abc", "C"));
    assert!(!text_contains("abc", "ca"));
    let m = msg("Hello");
    assert!(matches_query(&Query::Subject("ELL".to_string()), &m));
    assert!(matches_query(&Query::From("ann".to_string()), &m));
    assert!(!matches_query(&Query::With(Flag::Seen), &m));
    assert!(matches_query(&Query::Without(Flag::Seen), &m));
}

#[test]
fn ranges_are_cut_and_copied() {
    let range = parse_range("2:4,8,10:12").unwrap();
    assert_eq!(range.limited(11).format(), "2:4,8,10:11");
    assert_eq!(range.limited(9).format(), "2:4,8");
    assert_eq!(range.limited(3).format(), "2:3");
    assert_eq!(range.limited(1).format(), "");
    assert_eq!(range.limited(0).format(), "");
    assert_eq!(range.limited(u32::MAX).format(), "2:4,8,10:12");
    assert!(range.within(12) && !range.within(11));
    assert!(SeqRange::empty().within(0));
    assert_eq!(range.clone().format(), range.format());
    assert_eq!(SeqRange::empty().with_span(5, 6).with_span(1, 1).with_span(2, 4).format(), "1:6");
    assert!(!range.contains(0) && !range.contains(9) && range.contains(12));
}

#[test]
fn mailboxes_are_restored_only_when_well_formed() {
    let entry = |uid: u32| Entry { uid, msg: msg("x") };
    let folder = Folder::restore("Box", vec![entry(2), entry(5), entry(9)], 10).unwrap();
    assert_eq!(folder.count(), 3);
    assert_eq!(folder.uids().format(), "2,5,9");
    assert!(Folder::restore("Box", vec![entry(2), entry(2)], 10).is_none());
    assert!(Folder::restore("Box", vec![entry(5), entry(2)], 10).is_none());
    assert!(Folder::restore("Box", vec![entry(0)], 10).is_none());
    assert!(Folder::restore("Box", vec![entry(9)], 9).is_none());
    assert!(Folder::restore("Box", vec![], 0).is_none());
    assert!(Folder::restore("Box", vec![], 4294967297).is_none());
    assert!(Folder::restore("Box", vec![entry(u32::MAX)], 4294967296).is_some());
    let mut store = Store::new("me", "pw");
    assert!(store.insert_folder(folder));
    assert!(!store.insert_folder(Folder::new("Box")));
    assert_eq!(store.folder_count(), 1);
    assert_eq!(store.mailboxes()[0].name, "Box");
}

#[test]
fn a_full_mailbox_refuses_arrivals() {
    let last = Entry { uid: u32::MAX, msg: msg("last") };
    let full = Folder::restore("INBOX", vec![last], 4294967296).unwrap();
    let mut store = Store::new("me", "pw");
    store.insert_folder(full);
    store.add_folder("Other");
    let mut session = Session::new(store);
    session.connect(&account()).unwrap();
    session.select(&Mbox::new("INBOX")).unwrap();
    match session.save(&Mbox::new("INBOX"), &msg("more")) {
        Err(Error::Protocol(text)) => assert_eq!(text, "mailbox is full"),
        other => panic!("unexpected {:?}", other),
    }
    assert!(matches!(session.copy(&parse_range("1").unwrap(), &Mbox::new("INBOX")), Err(Error::Protocol(_))));
    assert!(matches!(session.move_(&parse_range("1").unwrap(), &Mbox::new("INBOX")), Err(Error::Protocol(_))));
    assert_eq!(session.store().folder(0).unwrap().count(), 1);
    session.move_(&parse_range("1").unwrap(), &Mbox::new("Other")).unwrap();
    assert_eq!(session.store().folder(0).unwrap().count(), 0);
    assert_eq!(session.store().folder(1).unwrap().count(), 1);
    assert!(matches!(session.save(&Mbox::new("INBOX"), &msg("more")), Err(Error::Protocol(_))));
}

#[test]
fn flags_are_listed_in_order() {
    let set = parse_flags("work draft seen home work").unwrap();
    let names: Vec<String> = set.to_vec().iter().map(|f| f.name()).collect();
    assert_eq!(names, vec!["Seen", "Draft", "work", "home"]);
    assert!(FlagSet::new().to_vec().is_empty());
    assert!(Flag::Answered.is_system() && !Flag::Custom("x".to_string()).is_system());
    assert!(matches!(Flag::from_name("dElEtEd"), Flag::Deleted));
    assert!(matches!(Flag::from_name("flagged"), Flag::Flagged));
    assert!(matches!(Flag::from_name("answered"), Flag::Answered));
    assert!(matches!(Flag::from_name("seenn"), Flag::Custom(_)));
    assert_eq!(Flag::Flagged.name(), "Flagged");
    assert_eq!(Flag::Answered.name(), "Answered");
    assert_eq!(Flag::Deleted.name(), "Deleted");
    assert_eq!(set.clone().to_vec().len(), 4);
}

#[test]
fn errors_describe_themselves() {
    assert_eq!(Error::Parse("5:1".to_string()).describe(), "cannot parse: 5:1");
    assert_eq!(Error::Protocol("NO quota".to_string()).describe(), "NO quota");
    assert_eq!(Error::NotFound.describe(), "no such message or mailbox");
    assert_eq!(Error::Connection.describe(), "cannot open the session: login refused");
    assert_eq!(Error::Delivery.describe(), "cannot deliver the message");
    assert_eq!(Error::InvalidState.describe(), "the session is in the wrong state for this");
}

#[test]
fn loops_start_in_their_mode() {
    let mut session = open(2);
    let mut watching = Watcher::watch(&session, 7).unwrap();
    let mut notifying = Watcher::notify(&session, 9).unwrap();
    let mut started = Watcher::start(&session, WatchMode::Notify, 9).unwrap();
    session.save(&Mbox::new("INBOX"), &msg("new")).unwrap();
    assert!(watching.wake(&session, Wake::Activity).unwrap().hooks.is_empty());
    let turn = notifying.wake(&session, Wake::Activity).unwrap();
    assert_eq!(turn.hooks.len(), 1);
    assert_eq!(turn.idle_for, 9);
    assert_eq!(started.wake(&session, Wake::Activity).unwrap().hooks.len(), 1);
    assert_eq!(watching.keepalive(), 7);
    let mbox = Mbox::or_inbox(None);
    assert_eq!(mbox.name, "INBOX");
    assert_eq!(Mbox::or_inbox(Some("Work")).name, "Work");
    assert_eq!(account().address().email, "me@x.org");
}
