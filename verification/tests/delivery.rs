use himalaya::delivery::DeliverySession;
use himalaya::error::Error;
use himalaya::msg::{Account, Address, Endpoint, Msg};

fn endpoint(secret: &str) -> Endpoint {
    Endpoint { host: "h".to_string(), port: 1, login: "me".to_string(), secret: secret.to_string() }
}

fn account(secret: &str) -> Account {
    Account {
        name: "Me".to_string(),
        email: "me@x.org".to_string(),
        retrieval: endpoint("other"),
        delivery: endpoint(secret),
        default_mailbox: "INBOX".to_string(),
    }
}

fn msg(to: &[&str]) -> Msg {
    let mut m = Msg::blank(Address { name: String::new(), email: "me@x.org".to_string() });
    m.to = to.iter().map(|e| Address { name: String::new(), email: e.to_string() }).collect();
    m.subject = "hello".to_string();
    m
}

#[test]
fn first_send_connects() {
    let mut session = DeliverySession::new("me", "pw");
    assert!(!session.is_connected());
    session.send(&account("pw"), &msg(&["a@x.org"])).unwrap();
    assert!(session.is_connected());
    assert_eq!(session.accepted().len(), 1);
    assert_eq!(session.accepted()[0].to[0].email, "a@x.org");
    session.send(&account("changed"), &msg(&["b@x.org"])).unwrap();
    assert_eq!(session.accepted().len(), 2);
    assert_eq!(session.accepted()[1].to[0].email, "b@x.org");
}

#[test]
fn refused_login_fails_the_send() {
    let mut session = DeliverySession::new("me", "pw");
    assert!(matches!(session.send(&account("bad"), &msg(&["a@x.org"])), Err(Error::Delivery)));
    assert!(!session.is_connected());
    assert!(session.accepted().is_empty());
}

#[test]
fn message_without_recipient_is_refused() {
    let mut session = DeliverySession::new("me", "pw");
    assert!(matches!(session.send(&account("pw"), &msg(&[])), Err(Error::Delivery)));
    assert!(session.is_connected());
    assert!(session.accepted().is_empty());
    let mut hidden = msg(&[]);
    hidden.bcc = vec![Address { name: String::new(), email: "c@x.org".to_string() }];
    session.send(&account("pw"), &hidden).unwrap();
    assert_eq!(session.accepted().len(), 1);
}

#[test]
fn disconnect_twice_is_once() {
    let mut session = DeliverySession::new("me", "pw");
    session.send(&account("pw"), &msg(&["a@x.org"])).unwrap();
    session.disconnect();
    assert!(!session.is_connected());
    session.disconnect();
    assert!(!session.is_connected());
    assert_eq!(session.accepted().len(), 1);
    assert!(matches!(session.send(&account("bad"), &msg(&["a@x.org"])), Err(Error::Delivery)));
}
