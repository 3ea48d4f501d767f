use rust_mcp_gateway::clock::{millis_of, secs_of, short_millis};
use rust_mcp_gateway::name_map::{copy_list, lists, NameMap, NameSet};
use rust_mcp_gateway::order::{sort, Ranked};
use rust_mcp_gateway::config_files::SignatureRow;
use rust_mcp_gateway::span::Span;
use rust_mcp_gateway::text::{cut, is_blank, same, standing, to_decimal, Standing};

#[test]
fn maps_are_walked_in_the_order_of_names() {
    let mut map = NameMap::new();
    for (name, value) in [("b", 1), ("a", 2), ("é", 3), ("ab", 4)] {
        assert_eq!(map.insert(name.into(), value), None);
    }
    assert_eq!(map.insert("b".into(), 5), Some(1));
    let names: Vec<&str> = (0..map.len()).map(|i| map.key_at(i).as_str()).collect();
    assert_eq!(names, vec!["a", "ab", "b", "é"]);
    assert_eq!(map.get("b"), Some(&5));
    map.replace_at(0, 9);
    assert_eq!(map.value_at(0), &9);
    assert_eq!(map.remove("ab"), Some(4));
    assert_eq!(map.remove("ab"), None);
    assert!(!map.contains_key("ab"));
    assert_eq!(map.clone().len(), 3);
}

#[test]
fn sets_hold_names_once() {
    let mut set = NameSet::new();
    assert!(set.is_empty());
    assert!(set.insert("x".into()));
    assert!(!set.insert("x".into()));
    assert!(set.contains("x"));
    let list = vec!["a".to_owned(), "b".to_owned()];
    assert!(lists(&copy_list(&list), "b"));
    assert!(!lists(&list, "c"));
}

#[test]
fn names_stand_by_their_code_points() {
    assert_eq!(standing("a", "ab"), Standing::Before);
    assert_eq!(standing("ab", "ab"), Standing::Same);
    assert_eq!(standing("b", "ab"), Standing::After);
    assert_eq!(standing("\u{ffff}", "\u{10000}"), Standing::Before);
    assert!(same("é", "é"));
    assert!(!same("e", "é"));
}

#[test]
fn sorting_is_stable() {
    let row = |name: &str, bytes| SignatureRow { name: name.into(), bytes, modified: None };
    let sorted = sort(vec![row("b", 1), row("a", 2), row("b", 0), row("a", 1)]);
    let shown: Vec<(String, u64)> = sorted.into_iter().map(|r| (r.name, r.bytes)).collect();
    assert_eq!(
        shown,
        vec![("a".into(), 1), ("a".into(), 2), ("b".into(), 0), ("b".into(), 1)]
    );
    let early = SignatureRow { name: "a".into(), bytes: 1, modified: None };
    let late = SignatureRow { name: "a".into(), bytes: 1, modified: Some(-5) };
    assert!(early.is_ahead(&late));
    assert!(!late.is_ahead(&early));
}

#[test]
fn texts_are_measured_and_cut() {
    assert_eq!(to_decimal(0), "0");
    assert_eq!(to_decimal(u128::MAX), u128::MAX.to_string());
    assert_eq!(cut("aé€", 5), "aé");
    assert_eq!(cut("aé€", 6), "aé€");
    assert_eq!(cut("€", 2), "");
    assert!(is_blank("\u{a0}\u{2003}\r\n"));
    assert!(!is_blank("\u{200b}"));
}

#[test]
fn spans_hold_whole_parts() {
    let span = Span::from_millis(1_234);
    assert_eq!((span.as_secs(), span.subsec_nanos()), (1, 234_000_000));
    assert!(span.reaches(&Span::new(1, 0)));
    assert!(!span.reaches(&Span::from_secs(2)));
    assert_eq!(span.millis_capped(), 1_234);
}

#[test]
fn readings_of_the_clock_are_taken_by_whole_parts() {
    assert_eq!(millis_of(None), 0);
    assert_eq!(secs_of(None), 0);
    assert_eq!(millis_of(Some((2, 3_999_999))), 2_003);
    assert_eq!(secs_of(Some((2, 999_999_999))), 2);
    assert_eq!(millis_of(Some((u64::MAX, 999_999_999))), 18_446_744_073_709_551_615_999);
    assert_eq!(short_millis(2_003), 2_003);
    assert_eq!(short_millis(u128::from(u64::MAX) + 8), 7);
}
