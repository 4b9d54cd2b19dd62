use himalaya::error::Error;
use himalaya::flag::parse_flags;
use himalaya::msg::{Account, Address, Endpoint, Mbox, Msg};
use himalaya::notify::{Wake, WatchMode, Watcher};
use himalaya::range::parse_range;
use himalaya::session::Session;
use himalaya::store::Store;

fn endpoint() -> Endpoint {
    Endpoint { host: "h".to_string(), port: 1, login: "me".to_string(), secret: "pw".to_string() }
}

fn account() -> Account {
    Account {
        name: "Me".to_string(),
        email: "me@x.org".to_string(),
        retrieval: endpoint(),
        delivery: endpoint(),
        default_mailbox: "INBOX".to_string(),
    }
}

fn msg(subject: &str) -> Msg {
    let mut m = Msg::blank(Address { name: String::new(), email: "ann@x.org".to_string() });
    m.subject = subject.to_string();
    m
}

fn open() -> Session {
    let mut store = Store::new("me", "pw");
    store.add_folder("INBOX");
    assert!(store.arrive(0, vec![msg("one"), msg("two")]));
    let mut session = Session::new(store);
    session.connect(&account()).unwrap();
    session.select(&Mbox::new("INBOX")).unwrap();
    session
}

#[test]
fn one_hook_for_one_arrival_and_none_after() {
    let mut session = open();
    let mut watcher = Watcher::start(&session, WatchMode::Notify, 60).unwrap();
    assert_eq!(session.snapshot().unwrap().format(), "1:2");
    session.save(&Mbox::new("INBOX"), &msg("three")).unwrap();
    assert_eq!(session.snapshot().unwrap().format(), "1:3");
    let turn = watcher.wake(&session, Wake::Activity).unwrap();
    assert_eq!(turn.hooks.len(), 1);
    assert_eq!(turn.hooks[0].uid, 3);
    assert_eq!(turn.hooks[0].msg.subject, "three");
    assert_eq!(turn.idle_for, 60);
    let again = watcher.wake(&session, Wake::Activity).unwrap();
    assert!(again.hooks.is_empty());
    assert_eq!(again.idle_for, 60);
}

#[test]
fn nothing_is_reported_at_the_start() {
    let session = open();
    let mut watcher = Watcher::start(&session, WatchMode::Notify, 5).unwrap();
    assert!(watcher.has_seen(1) && watcher.has_seen(2) && !watcher.has_seen(3));
    assert_eq!(watcher.keepalive(), 5);
    assert!(watcher.wake(&session, Wake::Activity).unwrap().hooks.is_empty());
}

#[test]
fn timeout_reissues_the_wait_silently() {
    let mut session = open();
    let mut watcher = Watcher::start(&session, WatchMode::Notify, 30).unwrap();
    session.save(&Mbox::new("INBOX"), &msg("three")).unwrap();
    let turn = watcher.wake(&session, Wake::Timeout).unwrap();
    assert!(turn.hooks.is_empty());
    assert_eq!(turn.idle_for, 30);
    assert!(!watcher.has_seen(3));
    let turn = watcher.wake(&session, Wake::Activity).unwrap();
    assert_eq!(turn.hooks.len(), 1);
    assert!(watcher.has_seen(3));
}

#[test]
fn changed_flags_do_not_notify_again() {
    let mut session = open();
    let mut watcher = Watcher::start(&session, WatchMode::Notify, 30).unwrap();
    session.add_flags(&parse_range("1:2").unwrap(), &parse_flags("seen").unwrap()).unwrap();
    assert!(watcher.wake(&session, Wake::Activity).unwrap().hooks.is_empty());
}

#[test]
fn several_arrivals_come_in_sequence_order() {
    let mut session = open();
    let mut watcher = Watcher::start(&session, WatchMode::Notify, 30).unwrap();
    session.delete(&parse_range("1").unwrap()).unwrap();
    session.save(&Mbox::new("INBOX"), &msg("three")).unwrap();
    session.save(&Mbox::new("INBOX"), &msg("four")).unwrap();
    let turn = watcher.wake(&session, Wake::Activity).unwrap();
    let uids: Vec<u32> = turn.hooks.iter().map(|e| e.uid).collect();
    assert_eq!(uids, vec![3, 4]);
    assert!(!watcher.has_seen(1));
}

#[test]
fn watch_mode_reports_nothing() {
    let mut session = open();
    let mut watcher = Watcher::start(&session, WatchMode::Watch, 10).unwrap();
    session.save(&Mbox::new("INBOX"), &msg("three")).unwrap();
    let turn = watcher.wake(&session, Wake::Activity).unwrap();
    assert!(turn.hooks.is_empty());
    assert_eq!(turn.idle_for, 10);
    assert!(watcher.wake(&session, Wake::Timeout).unwrap().hooks.is_empty());
}

#[test]
fn watching_needs_a_selected_mailbox() {
    let mut session = open();
    let mut watcher = Watcher::start(&session, WatchMode::Notify, 10).unwrap();
    session.logout();
    assert!(matches!(Watcher::start(&session, WatchMode::Notify, 10), Err(Error::InvalidState)));
    assert!(matches!(watcher.wake(&session, Wake::Activity), Err(Error::InvalidState)));
    assert!(matches!(watcher.wake(&session, Wake::Timeout), Err(Error::InvalidState)));
}
