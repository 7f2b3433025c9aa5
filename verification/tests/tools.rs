//! Texts, numbers, sets and maps.
use vmond::decimal::{parse_u64, render_i64, render_u64};
use vmond::floats::{float_of_int, is_finite, is_nonzero, is_positive, json_number, value_number};
use vmond::json::{json_eq, Json};
use vmond::numset::NumSet;
use vmond::paths::{file_name, join_path};
use vmond::sharded::Sharded;
use vmond::split::{split_first, split_last, split_lines, split_text, split_words};
use vmond::text::{find_text, trim};
use vmond::textmap::{difference, set_of, sort_texts, text_lt, TextMap, TextSet};

fn texts(items: &[&str]) -> Vec<String> {
    items.iter().map(|s| s.to_string()).collect()
}

#[test]
fn decimals_read_back() {
    for n in [0, 7, 10, 12345, u64::MAX] {
        assert_eq!(render_u64(n), n.to_string());
        assert_eq!(parse_u64(&render_u64(n), u64::MAX), Some(n));
    }
    for n in [0, -1, i64::MIN, i64::MAX] {
        assert_eq!(render_i64(n), n.to_string());
    }
    assert_eq!(parse_u64("", 10), None);
    assert_eq!(parse_u64("1x", 10), None);
    assert_eq!(parse_u64("11", 10), None);
    assert_eq!(parse_u64("18446744073709551616", u64::MAX), None);
}

#[test]
fn texts_are_split_as_the_standard_library_splits_them() {
    for s in ["", "a", "a:b", ":a::b:", "\u{e9}:x"] {
        assert_eq!(split_text(s, ':'), s.split(':').map(str::to_owned).collect::<Vec<_>>());
        let halves = |o: Option<(&str, &str)>| o.map(|(a, b)| (a.to_owned(), b.to_owned()));
        assert_eq!(split_first(s, ':'), halves(s.split_once(':')));
        assert_eq!(split_last(s, ':'), halves(s.rsplit_once(':')));
    }
    for s in ["", "a\nb", "a\n", "a\r\nb\r", "\n\n"] {
        assert_eq!(split_lines(s), s.lines().map(str::to_owned).collect::<Vec<_>>());
    }
    for s in ["", "  a  b\tc\n", "\u{2003}x\u{a0}y"] {
        assert_eq!(split_words(s), s.split_whitespace().map(str::to_owned).collect::<Vec<_>>());
        assert_eq!(trim(s), s.trim());
    }
    assert_eq!(find_text("abcabc", "ca"), Some(2));
    assert_eq!(find_text("abc", "x"), None);
}

#[test]
fn final_components_are_those_of_paths() {
    for s in ["", "/", "a", "/a/b", "/a/b/", "/a/..", "..", ".", "a/.", "a//b"] {
        let expected = std::path::Path::new(s).file_name().map(|n| n.to_str().unwrap().to_owned());
        assert_eq!(file_name(s), expected);
    }
    for (dir, name) in [("/a", "b"), ("/a/", "b"), ("", "b"), ("/", "b")] {
        assert_eq!(join_path(dir, name), std::path::Path::new(dir).join(name).to_str().unwrap());
    }
}

#[test]
fn texts_are_ordered_by_their_characters() {
    assert!(text_lt("a", "b"));
    assert!(text_lt("a", "aa"));
    assert!(!text_lt("b", "a"));
    assert!(!text_lt("a", "a"));
    assert_eq!(sort_texts(texts(&["b", "a", "c", "a"])), texts(&["a", "a", "b", "c"]));
    let mut map: TextMap<u64> = TextMap::new();
    map.insert("b".to_owned(), 1);
    map.insert("a".to_owned(), 2);
    map.insert("b".to_owned(), 3);
    assert_eq!(map.key_list(), texts(&["a", "b"]));
    assert_eq!(map.get("b"), Some(&3));
    map.remove("b");
    assert_eq!(map.len(), 1);
    let mut set = TextSet::new();
    set.insert("x".to_owned());
    assert!(set.contains("x") && !set.contains("y"));
    assert_eq!(difference(&set_of(&texts(&["x", "y"])), &set), texts(&["y"]));
    assert!(set.copy().same(&set));
}

#[test]
fn the_lowest_number_comes_first() {
    let mut set = NumSet::new();
    for n in [9, 4, 7, 4] {
        set.insert(n);
    }
    assert_eq!(set.list(), vec![4, 7, 9]);
    assert!(set.contains(7));
    assert_eq!(set.pop_lowest(), Some(4));
    assert_eq!(set.len(), 2);
    assert_eq!(NumSet::new().pop_lowest(), None);
}

#[test]
fn sharded_maps_hold_their_entries() {
    let mut map: Sharded<u64> = Sharded::new();
    map.insert("a", 1);
    map.insert("b", 2);
    map.insert("a", 3);
    assert_eq!(map.len(), 2);
    assert_eq!(map.get("a"), Some(&3));
    assert_eq!(map.remove("a"), Some(3));
    assert_eq!(map.remove("a"), None);
    assert_eq!(map.get("b"), Some(&2));
    assert_eq!(map.get("a"), None);
}

#[test]
fn numbers_are_known_by_their_bits() {
    for n in [0i128, 1, -1, 300, 1 << 53, (1 << 53) + 1, i64::MAX as i128, u64::MAX as i128, -(1 << 60)] {
        assert_eq!(float_of_int(n), (n as f64).to_bits());
    }
    assert!(is_finite(1.5f64.to_bits()) && !is_finite(f64::NAN.to_bits()) && !is_finite(f64::INFINITY.to_bits()));
    assert!(is_positive(1.5f64.to_bits()) && !is_positive((-1.5f64).to_bits()) && !is_positive(0f64.to_bits()));
    assert!(is_positive(f64::INFINITY.to_bits()) && !is_positive(f64::NAN.to_bits()));
    assert!(is_nonzero(1f64.to_bits()) && !is_nonzero(0f64.to_bits()) && !is_nonzero((-0f64).to_bits()));
    assert_eq!(value_number(&Json::Int(2)), Some(2f64.to_bits()));
    assert_eq!(value_number(&Json::Float(2.5f64.to_bits())), Some(2.5f64.to_bits()));
    assert_eq!(value_number(&Json::Null), None);
    assert!(json_eq(&json_number(2.5f64.to_bits()), &Json::Float(2.5f64.to_bits())));
    assert!(json_eq(&json_number(f64::NAN.to_bits()), &Json::Null));
}
