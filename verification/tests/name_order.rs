use pixelrag::order::{name_lt, sort_by_name};

#[test]
fn names_compare_like_strings() {
    let pairs = [
        ("tile-000", "tile-001"),
        ("tile-9", "tile-10"),
        ("a", "ab"),
        ("", "a"),
        ("Z", "a"),
        ("é", "z"),
        ("z", "é"),
        ("same", "same"),
    ];
    for (a, b) in pairs {
        assert_eq!(name_lt(a, b), a < b, "{a} vs {b}");
        assert_eq!(name_lt(b, a), b < a, "{b} vs {a}");
    }
}

#[test]
fn sort_orders_by_name_and_keeps_ties_in_order() {
    let entries = vec![
        ("tile-002".to_string(), 2u8),
        ("tile-000".to_string(), 0),
        ("tile-001".to_string(), 1),
        ("tile-000".to_string(), 9),
    ];
    let sorted = sort_by_name(entries.clone());
    let mut expected = entries;
    expected.sort_by(|a, b| a.0.cmp(&b.0));
    assert_eq!(sorted, expected);
    assert_eq!(sorted[0], ("tile-000".to_string(), 0));
    assert_eq!(sorted[1], ("tile-000".to_string(), 9));
}

#[test]
fn sort_handles_empty_and_unicode() {
    assert!(sort_by_name(Vec::<(String, ())>::new()).is_empty());
    let v = vec![("ü".to_string(), ()), ("u".to_string(), ()), ("".to_string(), ())];
    let names: Vec<String> = sort_by_name(v).into_iter().map(|e| e.0).collect();
    assert_eq!(names, vec!["".to_string(), "u".to_string(), "ü".to_string()]);
}
