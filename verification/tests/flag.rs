use himalaya::flag::{parse_flags, Flag, FlagSet};

#[test]
fn known_flags_match_without_case() {
    let set = parse_flags("seen FLAGGED, Draft").unwrap();
    assert!(set.contains(&Flag::Seen));
    assert!(set.contains(&Flag::Flagged));
    assert!(set.contains(&Flag::Draft));
    assert!(!set.contains(&Flag::Answered));
    assert!(!set.contains(&Flag::Deleted));
}

#[test]
fn unknown_names_become_keywords() {
    let set = parse_flags("work,\tSeen  urgent").unwrap();
    assert!(set.contains(&Flag::Custom("work".to_string())));
    assert!(set.contains(&Flag::Custom("urgent".to_string())));
    assert!(set.contains(&Flag::Seen));
    assert!(!set.contains(&Flag::Custom("Work".to_string())));
    assert!(!set.contains(&Flag::Custom("Seen".to_string())));
}

#[test]
fn empty_flag_text_is_the_empty_set() {
    let set = parse_flags(" , ").unwrap();
    assert!(!set.contains(&Flag::Seen));
    assert!(!set.contains(&Flag::Custom("".to_string())));
}

#[test]
fn adding_twice_is_adding_once() {
    let s = parse_flags("seen work").unwrap();
    let f = parse_flags("flagged work home").unwrap();
    let once = s.union(&f);
    let twice = once.union(&f);
    for flag in all_flags() {
        assert_eq!(once.contains(&flag), twice.contains(&flag));
    }
    assert!(once.contains(&Flag::Custom("home".to_string())));
    assert!(once.contains(&Flag::Seen));
}

#[test]
fn removing_what_was_added_restores_the_set() {
    let s = parse_flags("seen work").unwrap();
    let f = parse_flags("flagged home").unwrap();
    let back = s.union(&f).difference(&f);
    for flag in all_flags() {
        assert_eq!(back.contains(&flag), s.contains(&flag));
    }
}

#[test]
fn insert_and_remove_are_no_ops_when_nothing_changes() {
    let mut set = FlagSet::new();
    set.insert(Flag::Seen);
    set.insert(Flag::Seen);
    set.insert(Flag::Custom("a".to_string()));
    set.insert(Flag::Custom("a".to_string()));
    set.remove(&Flag::Draft);
    set.remove(&Flag::Custom("b".to_string()));
    assert!(set.contains(&Flag::Seen));
    assert!(set.contains(&Flag::Custom("a".to_string())));
    set.remove(&Flag::Custom("a".to_string()));
    assert!(!set.contains(&Flag::Custom("a".to_string())));
}

fn all_flags() -> Vec<Flag> {
    vec![
        Flag::Seen,
        Flag::Answered,
        Flag::Flagged,
        Flag::Deleted,
        Flag::Draft,
        Flag::Custom("work".to_string()),
        Flag::Custom("home".to_string()),
    ]
}
