use himalaya::error::Error;
use himalaya::range::{parse_range, SeqRange};

fn members(range: &SeqRange, upto: u32) -> Vec<u32> {
    (0..=upto).filter(|n| range.contains(*n)).collect()
}

#[test]
fn parses_numbers_and_spans() {
    let range = parse_range("1,3:5,9").unwrap();
    assert_eq!(members(&range, 20), vec![1, 3, 4, 5, 9]);
}

#[test]
fn rejects_descending_span() {
    match parse_range("5:1") {
        Err(Error::Parse(token)) => assert_eq!(token, "5:1"),
        other => panic!("expected a parse error, got {:?}", other),
    }
}

#[test]
fn rejects_empty_text() {
    match parse_range("") {
        Err(Error::Parse(token)) => assert_eq!(token, ""),
        other => panic!("expected a parse error, got {:?}", other),
    }
}

#[test]
fn reports_first_offending_token() {
    match parse_range("1,x,0") {
        Err(Error::Parse(token)) => assert_eq!(token, "x"),
        other => panic!("expected a parse error, got {:?}", other),
    }
    assert!(matches!(parse_range("1,,2"), Err(Error::Parse(_))));
    assert!(matches!(parse_range("0"), Err(Error::Parse(_))));
    assert!(matches!(parse_range("1:2:3"), Err(Error::Parse(_))));
    assert!(matches!(parse_range("4294967296"), Err(Error::Parse(_))));
    assert!(matches!(parse_range(" 1"), Err(Error::Parse(_))));
}

#[test]
fn formats_in_normal_form() {
    assert_eq!(parse_range("9,3:5,1").unwrap().format(), "1,3:5,9");
    assert_eq!(parse_range("1,2,3").unwrap().format(), "1:3");
    assert_eq!(parse_range("5:7,1:5").unwrap().format(), "1:7");
    assert_eq!(parse_range("007").unwrap().format(), "7");
    assert_eq!(parse_range("4294967295").unwrap().format(), "4294967295");
    assert_eq!(parse_range("2,4,6,3,5").unwrap().format(), "2:6");
    assert_eq!(SeqRange::empty().format(), "");
}

#[test]
fn format_is_stable_under_reparsing() {
    for text in ["1,3:5,9", "10:12,11,1", "3,2,1", "7", "1:4,6:9,5"] {
        let once = parse_range(text).unwrap().format();
        let twice = parse_range(&once).unwrap().format();
        assert_eq!(once, twice);
        let a = parse_range(text).unwrap();
        let b = parse_range(&once).unwrap();
        assert_eq!(members(&a, 30), members(&b, 30));
    }
}
