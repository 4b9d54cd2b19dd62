use himalaya::error::Error;
use himalaya::flag::{parse_flags, Flag, FlagSet};
use himalaya::folder::{Detail, FlagChange, Query};
use himalaya::msg::{Account, Address, Attachment, Endpoint, Mbox, Msg};
use himalaya::range::{parse_range, SeqRange};
use himalaya::session::{Session, SessionState};
use himalaya::store::Store;

fn endpoint(login: &str, secret: &str) -> Endpoint {
    Endpoint { host: "h".to_string(), port: 1, login: login.to_string(), secret: secret.to_string() }
}

fn account() -> Account {
    Account {
        name: "Me".to_string(),
        email: "me@x.org".to_string(),
        retrieval: endpoint("me", "pw"),
        delivery: endpoint("me", "pw"),
        default_mailbox: "INBOX".to_string(),
    }
}

fn msg(subject: &str) -> Msg {
    let mut m = Msg::blank(Address { name: "Ann".to_string(), email: "ann@x.org".to_string() });
    m.subject = subject.to_string();
    m.plain = Some(format!("body of {}", subject));
    m.attachments = vec![Attachment { name: "a".to_string(), data: vec![1, 2, 3] }];
    m
}

fn store() -> Store {
    let mut store = Store::new("me", "pw");
    assert!(store.add_folder("INBOX"));
    assert!(store.add_folder("Archive"));
    assert!(!store.add_folder("INBOX"));
    assert!(store.arrive(0, vec![msg("one"), msg("two"), msg("three"), msg("four")]));
    store
}

fn open() -> Session {
    let mut session = Session::new(store());
    session.connect(&account()).unwrap();
    session.select(&Mbox::new("INBOX")).unwrap();
    session
}

fn subjects(msgs: &[Msg]) -> Vec<String> {
    msgs.iter().map(|m| m.subject.clone()).collect()
}

fn all() -> SeqRange {
    parse_range("1:1000").unwrap()
}

fn inbox(session: &Session) -> Vec<Msg> {
    session.store().folder(0).unwrap().fetch(&all(), Detail::Full)
}

fn archive(session: &Session) -> Vec<Msg> {
    session.store().folder(1).unwrap().fetch(&all(), Detail::Full)
}

fn flag_table(session: &Session) -> Vec<Vec<bool>> {
    let flags = [Flag::Seen, Flag::Answered, Flag::Flagged, Flag::Deleted, Flag::Draft, Flag::Custom("work".to_string())];
    inbox(session).iter().map(|m| flags.iter().map(|f| m.flags.contains(f)).collect()).collect()
}

#[test]
fn session_walks_through_its_states() {
    let mut session = Session::new(store());
    assert_eq!(session.state(), SessionState::Disconnected);
    assert!(matches!(session.select(&Mbox::new("INBOX")), Err(Error::InvalidState)));
    session.connect(&account()).unwrap();
    assert_eq!(session.state(), SessionState::Connected);
    assert!(matches!(session.connect(&account()), Err(Error::InvalidState)));
    assert!(matches!(session.select(&Mbox::new("Nowhere")), Err(Error::NotFound)));
    assert_eq!(session.state(), SessionState::Connected);
    session.select(&Mbox::new("Archive")).unwrap();
    assert_eq!(session.state(), SessionState::Selected(1));
    session.select(&Mbox::new("INBOX")).unwrap();
    assert_eq!(session.state(), SessionState::Selected(0));
    session.logout();
    assert_eq!(session.state(), SessionState::Disconnected);
    session.logout();
    assert_eq!(session.state(), SessionState::Disconnected);
    assert_eq!(subjects(&inbox(&session)), vec!["one", "two", "three", "four"]);
}

#[test]
fn refused_login_is_a_connection_error() {
    let mut session = Session::new(store());
    let mut wrong = account();
    wrong.retrieval.secret = "nope".to_string();
    assert!(matches!(session.connect(&wrong), Err(Error::Connection)));
    assert_eq!(session.state(), SessionState::Disconnected);
}

#[test]
fn operations_need_a_selected_mailbox() {
    let mut session = Session::new(store());
    session.connect(&account()).unwrap();
    let range = parse_range("1").unwrap();
    let flags = FlagSet::new();
    let target = Mbox::new("Archive");
    assert!(matches!(session.list_mailboxes(), Err(Error::InvalidState)));
    assert!(matches!(session.search(&Query::All), Err(Error::InvalidState)));
    assert!(matches!(session.fetch(&range, Detail::Full), Err(Error::InvalidState)));
    assert!(matches!(session.fetch_one(1), Err(Error::InvalidState)));
    assert!(matches!(session.set_flags(&range, &flags), Err(Error::InvalidState)));
    assert!(matches!(session.add_flags(&range, &flags), Err(Error::InvalidState)));
    assert!(matches!(session.remove_flags(&range, &flags), Err(Error::InvalidState)));
    assert!(matches!(session.copy(&range, &target), Err(Error::InvalidState)));
    assert!(matches!(session.move_(&range, &target), Err(Error::InvalidState)));
    assert!(matches!(session.delete(&range), Err(Error::InvalidState)));
    assert!(matches!(session.save(&target, &msg("x")), Err(Error::InvalidState)));
    assert!(matches!(session.snapshot(), Err(Error::InvalidState)));
    assert_eq!(subjects(&inbox(&session)), vec!["one", "two", "three", "four"]);
}

#[test]
fn lists_mailboxes_in_order() {
    let session = open();
    let names: Vec<String> = session.list_mailboxes().unwrap().into_iter().map(|m| m.name).collect();
    assert_eq!(names, vec!["INBOX", "Archive"]);
}

#[test]
fn fetch_is_in_ascending_order_whatever_the_text() {
    let session = open();
    let msgs = session.fetch(&parse_range("3,1").unwrap(), Detail::Full).unwrap();
    assert_eq!(subjects(&msgs), vec!["one", "three"]);
    let msgs = session.fetch(&parse_range("4,2:3,9").unwrap(), Detail::Full).unwrap();
    assert_eq!(subjects(&msgs), vec!["two", "three", "four"]);
    assert_eq!(msgs[0].plain.as_deref(), Some("body of two"));
    assert_eq!(msgs[0].attachments[0].data, vec![1, 2, 3]);
}

#[test]
fn header_fetch_leaves_bodies_out() {
    let mut session = open();
    session.add_flags(&parse_range("2").unwrap(), &parse_flags("seen").unwrap()).unwrap();
    let msgs = session.fetch(&parse_range("2").unwrap(), Detail::Headers).unwrap();
    assert_eq!(subjects(&msgs), vec!["two"]);
    assert!(msgs[0].plain.is_none() && msgs[0].rich.is_none());
    assert!(msgs[0].attachments.is_empty());
    assert!(msgs[0].flags.contains(&Flag::Seen));
    assert_eq!(msgs[0].from.email, "ann@x.org");
}

#[test]
fn fetch_one_reports_absent_numbers() {
    let session = open();
    assert_eq!(session.fetch_one(4).unwrap().subject, "four");
    assert!(matches!(session.fetch_one(5), Err(Error::NotFound)));
    assert!(matches!(session.fetch_one(0), Err(Error::NotFound)));
}

#[test]
fn search_finds_by_flag_and_text() {
    let mut session = open();
    session.add_flags(&parse_range("1,3").unwrap(), &parse_flags("flagged").unwrap()).unwrap();
    assert_eq!(session.search(&Query::All).unwrap().format(), "1:4");
    assert_eq!(session.search(&Query::With(Flag::Flagged)).unwrap().format(), "1,3");
    assert_eq!(session.search(&Query::Without(Flag::Flagged)).unwrap().format(), "2,4");
    assert_eq!(session.search(&Query::Subject("T".to_string())).unwrap().format(), "2:3");
    assert_eq!(session.search(&Query::Subject("".to_string())).unwrap().format(), "1:4");
    assert_eq!(session.search(&Query::From("ANN".to_string())).unwrap().format(), "1:4");
    assert_eq!(session.search(&Query::From("x.org".to_string())).unwrap().format(), "1:4");
    let none = session.search(&Query::Subject("five".to_string())).unwrap();
    assert!(none.is_empty());
    assert_eq!(none.format(), "");
}

#[test]
fn flags_are_set_added_and_removed_per_message() {
    let mut session = open();
    let range = parse_range("2:3").unwrap();
    session.add_flags(&range, &parse_flags("seen work").unwrap()).unwrap();
    session.add_flags(&parse_range("3").unwrap(), &parse_flags("draft").unwrap()).unwrap();
    let f = false;
    let t = true;
    assert_eq!(
        flag_table(&session),
        vec![vec![f, f, f, f, f, f], vec![t, f, f, f, f, t], vec![t, f, f, f, t, t], vec![f, f, f, f, f, f]]
    );
    session.remove_flags(&parse_range("1:4").unwrap(), &parse_flags("work answered").unwrap()).unwrap();
    assert_eq!(
        flag_table(&session),
        vec![vec![f, f, f, f, f, f], vec![t, f, f, f, f, f], vec![t, f, f, f, t, f], vec![f, f, f, f, f, f]]
    );
    session.set_flags(&parse_range("3:9").unwrap(), &parse_flags("answered").unwrap()).unwrap();
    assert_eq!(
        flag_table(&session),
        vec![vec![f, f, f, f, f, f], vec![t, f, f, f, f, f], vec![f, t, f, f, f, f], vec![f, t, f, f, f, f]]
    );
}

#[test]
fn adding_flags_twice_changes_nothing_more() {
    let mut session = open();
    let range = parse_range("1,4").unwrap();
    let flags = parse_flags("seen work").unwrap();
    session.add_flags(&range, &flags).unwrap();
    let once = flag_table(&session);
    session.add_flags(&range, &flags).unwrap();
    assert_eq!(flag_table(&session), once);
}

#[test]
fn removing_added_flags_restores_the_mailbox() {
    let mut session = open();
    session.add_flags(&parse_range("1").unwrap(), &parse_flags("draft").unwrap()).unwrap();
    let before = flag_table(&session);
    let range = parse_range("1:2").unwrap();
    let flags = parse_flags("seen work").unwrap();
    session.add_flags(&range, &flags).unwrap();
    assert_ne!(flag_table(&session), before);
    session.remove_flags(&range, &flags).unwrap();
    assert_eq!(flag_table(&session), before);
}

#[test]
fn copy_duplicates_into_the_target() {
    let mut session = open();
    session.add_flags(&parse_range("3").unwrap(), &parse_flags("seen").unwrap()).unwrap();
    session.copy(&parse_range("3,1").unwrap(), &Mbox::new("Archive")).unwrap();
    assert_eq!(subjects(&inbox(&session)), vec!["one", "two", "three", "four"]);
    let copies = archive(&session);
    assert_eq!(subjects(&copies), vec!["one", "three"]);
    assert!(copies[1].flags.contains(&Flag::Seen));
    assert_eq!(copies[1].attachments[0].data, vec![1, 2, 3]);
    assert_eq!(session.store().folder(1).unwrap().uids().format(), "1:2");
    session.copy(&parse_range("2").unwrap(), &Mbox::new("INBOX")).unwrap();
    assert_eq!(subjects(&inbox(&session)), vec!["one", "two", "three", "four", "two"]);
    assert_eq!(session.store().folder(0).unwrap().uids().format(), "1:5");
}

#[test]
fn copy_and_move_are_all_or_nothing() {
    let mut session = open();
    session.add_flags(&parse_range("2").unwrap(), &parse_flags("flagged").unwrap()).unwrap();
    let flags = flag_table(&session);
    for text in ["2,9", "5", "1:5"] {
        let range = parse_range(text).unwrap();
        assert!(matches!(session.move_(&range, &Mbox::new("Archive")), Err(Error::NotFound)));
        assert!(matches!(session.copy(&range, &Mbox::new("Archive")), Err(Error::NotFound)));
        assert_eq!(subjects(&inbox(&session)), vec!["one", "two", "three", "four"]);
        assert_eq!(flag_table(&session), flags);
        assert!(archive(&session).is_empty());
    }
    assert!(matches!(session.move_(&parse_range("1").unwrap(), &Mbox::new("Nowhere")), Err(Error::NotFound)));
    assert_eq!(subjects(&inbox(&session)), vec!["one", "two", "three", "four"]);
    assert_eq!(session.state(), SessionState::Selected(0));
}

#[test]
fn move_copies_then_removes_the_source() {
    let mut session = open();
    session.move_(&parse_range("4,2").unwrap(), &Mbox::new("Archive")).unwrap();
    assert_eq!(subjects(&inbox(&session)), vec!["one", "three"]);
    let moved = archive(&session);
    assert_eq!(subjects(&moved), vec!["two", "four"]);
    assert!(!moved[0].flags.contains(&Flag::Deleted));
    assert_eq!(session.store().folder(0).unwrap().uids().format(), "1,3");
    assert_eq!(session.fetch_one(2).unwrap().subject, "three");
}

#[test]
fn delete_flags_and_expunges() {
    let mut session = open();
    session.add_flags(&parse_range("1").unwrap(), &parse_flags("deleted").unwrap()).unwrap();
    assert_eq!(subjects(&inbox(&session)), vec!["one", "two", "three", "four"]);
    session.delete(&parse_range("3,7").unwrap()).unwrap();
    assert_eq!(subjects(&inbox(&session)), vec!["two", "four"]);
    session.delete(&parse_range("9").unwrap()).unwrap();
    assert_eq!(subjects(&inbox(&session)), vec!["two", "four"]);
}

#[test]
fn save_appends_with_the_next_identifier() {
    let mut session = open();
    session.delete(&parse_range("4").unwrap()).unwrap();
    session.save(&Mbox::new("INBOX"), &msg("sent")).unwrap();
    assert_eq!(subjects(&inbox(&session)), vec!["one", "two", "three", "sent"]);
    assert_eq!(session.snapshot().unwrap().format(), "1:3,5");
    assert!(matches!(session.save(&Mbox::new("Nowhere"), &msg("x")), Err(Error::NotFound)));
    session.save(&Mbox::new("Archive"), &msg("kept")).unwrap();
    assert_eq!(subjects(&archive(&session)), vec!["kept"]);
}

#[test]
fn store_hands_out_its_mailboxes() {
    let store = store();
    assert_eq!(store.folder_count(), 2);
    assert_eq!(store.find(&"Archive".to_string()), Some(1));
    assert_eq!(store.find(&"archive".to_string()), None);
    assert!(store.folder(2).is_none());
    let inbox = store.folder(0).unwrap();
    assert_eq!(inbox.name(), "INBOX");
    assert_eq!(inbox.count(), 4);
    assert_eq!(inbox.count_in(&parse_range("2,4:9").unwrap()), 2);
    assert!(inbox.holds_all(&parse_range("1:4").unwrap()));
    assert!(!inbox.holds_all(&parse_range("4:5").unwrap()));
    assert!(inbox.get(0).is_none());
    assert_eq!(inbox.get(1).unwrap().subject, "one");
    assert!(store.accepts(&"me".to_string(), &"pw".to_string()));
    assert!(!store.accepts(&"me".to_string(), &"".to_string()));
    let _ = FlagChange::Add;
    let into = Session::new(store).into_store();
    assert_eq!(into.folder_count(), 2);
}
