use shad_env::parse_slot;
use shad_env::slot::user_slot;

#[test]
fn parse_slot_splits_kind_and_index() {
    assert_eq!(parse_slot("s2"), Some(('s', 2)));
    assert_eq!(parse_slot("v0"), Some(('v', 0)));
    assert_eq!(parse_slot("x17"), Some(('x', 17)));
}

#[test]
fn parse_slot_reads_the_index_as_usize_parse_does() {
    assert_eq!(parse_slot("s+1"), Some(('s', 1)));
    assert_eq!(parse_slot("s01"), Some(('s', 1)));
    assert_eq!(parse_slot("s-1"), None);
    assert_eq!(parse_slot("s+"), None);
    assert_eq!(parse_slot("s 1"), None);
    assert_eq!(parse_slot("s1 "), None);
    assert_eq!(parse_slot("s1x"), None);
}

#[test]
fn parse_slot_rejects_names_without_index() {
    assert_eq!(parse_slot(""), None);
    assert_eq!(parse_slot("s"), None);
}

#[test]
fn parse_slot_rejects_an_index_that_overflows() {
    let big = format!("s{}", u128::from(usize::MAX as u64) * 10);
    assert_eq!(parse_slot(&big), None);
    let max = format!("v{}", usize::MAX);
    assert_eq!(parse_slot(&max), Some(('v', usize::MAX)));
}

#[test]
fn parse_slot_takes_a_non_ascii_kind() {
    assert_eq!(parse_slot("é3"), Some(('é', 3)));
}

#[test]
fn parse_slot_agrees_with_str_parse() {
    for name in ["s0", "s3", "v4", "s+0", "s007", "q12", "s", "s--1", "s1.0", "s٣"] {
        let mut chars = name.chars();
        let expected = chars.next().and_then(|k| chars.as_str().parse::<usize>().ok().map(|i| (k, i)));
        assert_eq!(parse_slot(name), expected, "{name}");
    }
}

#[test]
fn user_slot_names_exactly_the_eight_slots() {
    assert_eq!(user_slot("s0"), Some(('s', 0)));
    assert_eq!(user_slot("s3"), Some(('s', 3)));
    assert_eq!(user_slot("v2"), Some(('v', 2)));
    for name in ["s4", "v9", "s01", "s+1", "x0", "s", "", "v00", "é1", "S1"] {
        assert_eq!(user_slot(name), None, "{name}");
    }
}
