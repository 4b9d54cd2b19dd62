use himalaya::command::{Operation, Outcome};
use himalaya::error::Error;
use himalaya::flag::{parse_flags, Flag};
use himalaya::folder::{Detail, FlagChange, Query};
use himalaya::msg::{Account, Address, Endpoint, Mbox, Msg};
use himalaya::range::parse_range;
use himalaya::session::{Session, SessionState};
use himalaya::store::Store;

fn endpoint(secret: &str) -> Endpoint {
    Endpoint { host: "h".to_string(), port: 1, login: "me".to_string(), secret: secret.to_string() }
}

fn account(secret: &str) -> Account {
    Account {
        name: "Me".to_string(),
        email: "me@x.org".to_string(),
        retrieval: endpoint(secret),
        delivery: endpoint(secret),
        default_mailbox: "INBOX".to_string(),
    }
}

fn msg(subject: &str) -> Msg {
    let mut m = Msg::blank(Address { name: String::new(), email: "ann@x.org".to_string() });
    m.subject = subject.to_string();
    m
}

fn session() -> Session {
    let mut store = Store::new("me", "pw");
    store.add_folder("INBOX");
    store.add_folder("Archive");
    assert!(store.arrive(0, vec![msg("one"), msg("two"), msg("three")]));
    Session::new(store)
}

fn subjects(session: &Session, folder: usize) -> Vec<String> {
    let all = parse_range("1:100").unwrap();
    session.store().folder(folder).unwrap().fetch(&all, Detail::Headers).into_iter().map(|m| m.subject).collect()
}

#[test]
fn run_performs_and_closes() {
    let mut s = session();
    let op = Operation::Move(parse_range("1,3").unwrap(), Mbox::new("Archive"));
    assert!(matches!(s.run(&account("pw"), &Mbox::new("INBOX"), &op), Ok(Outcome::Done)));
    assert_eq!(s.state(), SessionState::Disconnected);
    assert_eq!(subjects(&s, 0), vec!["two"]);
    assert_eq!(subjects(&s, 1), vec!["one", "three"]);
}

#[test]
fn run_closes_on_every_failure() {
    let inbox = Mbox::new("INBOX");
    let mut s = session();
    assert!(matches!(s.run(&account("bad"), &inbox, &Operation::ListMailboxes), Err(Error::Connection)));
    assert_eq!(s.state(), SessionState::Disconnected);
    assert!(matches!(s.run(&account("pw"), &Mbox::new("Nowhere"), &Operation::ListMailboxes), Err(Error::NotFound)));
    assert_eq!(s.state(), SessionState::Disconnected);
    assert!(matches!(s.run(&account("pw"), &inbox, &Operation::Read(7)), Err(Error::NotFound)));
    assert_eq!(s.state(), SessionState::Disconnected);
    let op = Operation::Copy(parse_range("2:4").unwrap(), Mbox::new("Archive"));
    assert!(matches!(s.run(&account("pw"), &inbox, &op), Err(Error::NotFound)));
    assert_eq!(s.state(), SessionState::Disconnected);
    assert_eq!(subjects(&s, 0), vec!["one", "two", "three"]);
    assert!(subjects(&s, 1).is_empty());
    s.connect(&account("pw")).unwrap();
    assert!(matches!(s.run(&account("pw"), &inbox, &Operation::ListMailboxes), Err(Error::InvalidState)));
    assert_eq!(s.state(), SessionState::Disconnected);
}

#[test]
fn run_answers_each_reading_operation() {
    let inbox = Mbox::new("INBOX");
    let mut s = session();
    match s.run(&account("pw"), &inbox, &Operation::ListMailboxes).unwrap() {
        Outcome::Mailboxes(boxes) => assert_eq!(boxes.len(), 2),
        other => panic!("unexpected {:?}", other),
    }
    match s.run(&account("pw"), &inbox, &Operation::Search(Query::Subject("t".to_string()))).unwrap() {
        Outcome::Found(range) => assert_eq!(range.format(), "2:3"),
        other => panic!("unexpected {:?}", other),
    }
    match s.run(&account("pw"), &inbox, &Operation::Fetch(parse_range("3,2").unwrap(), Detail::Headers)).unwrap() {
        Outcome::Messages(msgs) => assert_eq!(msgs.len(), 2),
        other => panic!("unexpected {:?}", other),
    }
    match s.run(&account("pw"), &inbox, &Operation::Read(2)).unwrap() {
        Outcome::Message(m) => assert_eq!(m.subject, "two"),
        other => panic!("unexpected {:?}", other),
    }
}

#[test]
fn perform_writes_through_the_session() {
    let mut s = session();
    s.connect(&account("pw")).unwrap();
    s.select(&Mbox::new("INBOX")).unwrap();
    let flags = Operation::Flags(parse_range("2").unwrap(), parse_flags("seen").unwrap(), FlagChange::Add);
    assert!(matches!(s.perform(&flags), Ok(Outcome::Done)));
    assert!(s.fetch_one(2).unwrap().flags.contains(&Flag::Seen));
    assert!(matches!(s.perform(&Operation::Save(Mbox::new("Archive"), msg("kept"))), Ok(Outcome::Done)));
    assert!(matches!(s.perform(&Operation::Delete(parse_range("1").unwrap())), Ok(Outcome::Done)));
    assert_eq!(s.state(), SessionState::Selected(0));
    assert_eq!(subjects(&s, 0), vec!["two", "three"]);
    assert_eq!(subjects(&s, 1), vec!["kept"]);
}

fn sent(op: &Operation, count: u32) -> Vec<String> {
    himalaya::request::plan(op, count)
        .iter()
        .map(|r| match r {
            himalaya::request::Request::Store(range, flags, change) => {
                let names: Vec<String> = flags.to_vec().iter().map(|f| f.name()).collect();
                format!("store {} {:?} {}", range.format(), change, names.join(" "))
            }
            himalaya::request::Request::Copy(range, target) => {
                format!("copy {} {}", range.format(), target.name)
            }
            himalaya::request::Request::Expunge => "expunge".to_string(),
            himalaya::request::Request::Append(target, msg) => {
                format!("append {} {}", target.name, msg.subject)
            }
        })
        .collect()
}

#[test]
fn operations_are_planned_as_requests() {
    let range = || parse_range("2,4:9").unwrap();
    let flags = Operation::Flags(range(), parse_flags("seen work").unwrap(), FlagChange::Remove);
    assert_eq!(sent(&flags, 5), vec!["store 2,4:5 Remove Seen work"]);
    assert!(sent(&flags, 1).is_empty());
    assert_eq!(sent(&Operation::Delete(range()), 4), vec!["store 2,4 Add Deleted", "expunge"]);
    assert_eq!(sent(&Operation::Delete(range()), 0), vec!["expunge"]);
    assert_eq!(sent(&Operation::Copy(range(), Mbox::new("Archive")), 9), vec!["copy 2,4:9 Archive"]);
    assert_eq!(
        sent(&Operation::Move(range(), Mbox::new("Archive")), 9),
        vec!["copy 2,4:9 Archive", "store 2,4:9 Add Deleted", "expunge"]
    );
    assert_eq!(sent(&Operation::Save(Mbox::new("Sent"), msg("kept")), 3), vec!["append Sent kept"]);
    assert!(sent(&Operation::ListMailboxes, 3).is_empty());
    assert!(sent(&Operation::Read(1), 3).is_empty());
    assert!(sent(&Operation::Search(Query::All), 3).is_empty());
    assert!(sent(&Operation::List(None, 10, 0), 3).is_empty());
    assert!(sent(&Operation::Fetch(range(), Detail::Full), 3).is_empty());
}
