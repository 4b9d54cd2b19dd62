use himalaya::error::Error;
use himalaya::mailto::{is_mailto_uri, mailto, QueryPair, UriParts};
use himalaya::msg::{Account, Address, Endpoint};
use himalaya::template::{Template, TemplateKind};

fn endpoint() -> Endpoint {
    Endpoint { host: "h".to_string(), port: 1, login: "l".to_string(), secret: "s".to_string() }
}

fn account() -> Account {
    Account {
        name: "Me".to_string(),
        email: "me@x.org".to_string(),
        retrieval: endpoint(),
        delivery: endpoint(),
        default_mailbox: "INBOX".to_string(),
    }
}

fn emails(list: &[Address]) -> Vec<String> {
    list.iter().map(|a| a.email.clone()).collect()
}

fn pair(key: &str, value: &str) -> QueryPair {
    QueryPair { key: key.to_string(), value: value.to_string() }
}

#[test]
fn mailto_fills_recipient_and_subject() {
    let tpl = mailto(&account(), "mailto:a@x.com?subject=Hi%20there").unwrap();
    assert_eq!(tpl.kind, TemplateKind::New);
    assert_eq!(emails(&tpl.msg.to), vec!["a@x.com"]);
    assert_eq!(tpl.msg.subject, "Hi there");
    assert_eq!(tpl.msg.from.email, "me@x.org");
    assert_eq!(tpl.msg.plain.as_deref(), Some(""));
}

#[test]
fn mailto_reads_all_recognized_keys() {
    let tpl = mailto(
        &account(),
        "mailto:a@x.com?cc=b@x.com&bcc=c@x.com&to=d@x.com&body=line%201%0Aline+2&x=y&cc=e@x.com&subject=one&subject=two",
    )
    .unwrap();
    assert_eq!(emails(&tpl.msg.to), vec!["a@x.com", "d@x.com"]);
    assert_eq!(emails(&tpl.msg.cc), vec!["b@x.com", "e@x.com"]);
    assert_eq!(emails(&tpl.msg.bcc), vec!["c@x.com"]);
    assert_eq!(tpl.msg.subject, "two");
    assert_eq!(tpl.msg.plain.as_deref(), Some("line 1\nline 2"));
}

#[test]
fn mailto_decodes_the_path_too() {
    let tpl = mailto(&account(), "mailto:a%2Bb%40x.com?cc=c%40x.com").unwrap();
    assert_eq!(emails(&tpl.msg.to), vec!["a+b@x.com"]);
    assert_eq!(emails(&tpl.msg.cc), vec!["c@x.com"]);
    let tpl = mailto(&account(), "mailto:a+b@x.com").unwrap();
    assert_eq!(emails(&tpl.msg.to), vec!["a+b@x.com"]);
}

#[test]
fn mailto_without_path_has_no_primary_recipient() {
    let tpl = mailto(&account(), "mailto:?to=d@x.com").unwrap();
    assert_eq!(emails(&tpl.msg.to), vec!["d@x.com"]);
    let tpl = mailto(&account(), "mailto:").unwrap();
    assert!(tpl.msg.to.is_empty());
}

#[test]
fn other_texts_are_parse_errors() {
    for text in ["http://x.org/", "a@x.com", "", "MAILTO:a@x.com", "mailto"] {
        match mailto(&account(), text) {
            Err(Error::Parse(token)) => assert_eq!(token, text),
            other => panic!("expected a parse error, got {:?}", other),
        }
    }
}

#[test]
fn mailto_guard_looks_at_the_prefix() {
    assert!(is_mailto_uri("mailto:a@x.com"));
    assert!(is_mailto_uri("mailto:"));
    assert!(!is_mailto_uri("mailto"));
    assert!(!is_mailto_uri("Mailto:a@x.com"));
    assert!(!is_mailto_uri("list"));
    assert!(!is_mailto_uri(""));
}

#[test]
fn parts_fill_the_template_in_order() {
    let parts = UriParts {
        path: "a@x.com".to_string(),
        query: vec![pair("body", "one"), pair("Subject", "ignored"), pair("body", "two"), pair("to", "b@x.com")],
    };
    let tpl = Template::from_uri_parts(&account(), &parts);
    assert_eq!(emails(&tpl.msg.to), vec!["a@x.com", "b@x.com"]);
    assert_eq!(tpl.msg.to[0].name, "");
    assert_eq!(tpl.msg.subject, "");
    assert_eq!(tpl.msg.plain.as_deref(), Some("two"));
}
