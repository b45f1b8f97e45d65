use ayaka::fallback::Fallback;

#[test]
fn some() {
    assert!(!Fallback::<()>::new(None, None).is_some());
}

#[test]
fn option() {
    let f = Fallback::new(None, Some(100));
    assert_eq!(Option::from(f), Some(100));
}

#[test]
fn fallback_is_some_with_either() {
    assert!(Fallback::new(Some(1), None).is_some());
    assert!(Fallback::new(None, Some(1)).is_some());
    assert!(Fallback::new(Some(1), Some(2)).is_some());
}

#[test]
fn option_prefers_data() {
    let f = Fallback::new(Some(1), Some(100));
    assert_eq!(Option::from(f), Some(1));
    let f: Fallback<i32> = Fallback::new(None, None);
    assert_eq!(Option::<i32>::from(f), None);
}

#[test]
fn and_then_falls_back_on_part() {
    let fallback = Fallback::new(Some("hello"), Some("123"));
    let num = fallback.and_then(|s| s.parse::<i32>().ok());
    assert_eq!(num, Some(123));

    let fallback = Fallback::new(Some("7"), Some("123"));
    let num = fallback.and_then(|s| s.parse::<i32>().ok());
    assert_eq!(num, Some(7));

    let fallback = Fallback::new(Some("x"), Some("y"));
    let num = fallback.and_then(|s| s.parse::<i32>().ok());
    assert_eq!(num, None);
}

#[test]
fn map_then_and_then() {
    let fallback = Fallback::new(Some(123), Some(123456));
    let fallback = fallback.map(|i| i.to_string());
    let s = fallback.and_then(|s| if s.len() > 3 { Some(s) } else { None });
    assert_eq!(s, Some("123456".to_string()));
}

#[test]
fn fallback_whole_value() {
    assert_eq!(Fallback::new(Some(1), Some(2)).fallback(), Some(1));
    assert_eq!(Fallback::new(None, Some(2)).fallback(), Some(2));
    assert_eq!(Fallback::<i32>::new(None, None).fallback(), None);
}

#[test]
fn unzip_and_as_ref() {
    let f = Fallback::new(Some(1), None);
    assert_eq!(f.as_ref().unzip(), (Some(&1), None));
    assert_eq!(f.unzip(), (Some(1), None));
}

#[test]
fn flatten_options() {
    let f = Fallback::new(Some(None), Some(Some(3)));
    assert_eq!(f.flatten().unzip(), (None, Some(3)));
}

#[test]
fn and_any_skips_empty() {
    let f = Fallback::new(Some(String::new()), Some("base".to_string()));
    assert_eq!(f.and_any(), Some("base".to_string()));
    let f = Fallback::new(Some("main".to_string()), Some("base".to_string()));
    assert_eq!(f.and_any(), Some("main".to_string()));
    let f: Fallback<Vec<i32>> = Fallback::new(Some(vec![]), Some(vec![]));
    assert_eq!(f.and_any(), None);
}

#[test]
fn into_iter_pairs_items() {
    let f = Fallback::new(Some(vec![1, 2, 3]), Some(vec![10]));
    let mut it = f.into_iter();
    assert_eq!(it.next().unwrap().unzip(), (Some(1), Some(10)));
    assert_eq!(it.next().unwrap().unzip(), (Some(2), None));
    assert_eq!(it.next().unwrap().unzip(), (Some(3), None));
    assert!(it.next().is_none());
    assert!(it.next().is_none());

    let f: Fallback<Vec<i32>> = Fallback::new(None, Some(vec![5, 6]));
    let mut it = f.into_iter();
    assert_eq!(it.next().unwrap().unzip(), (None, Some(5)));
    assert_eq!(it.next().unwrap().unzip(), (None, Some(6)));
    assert!(it.next().is_none());
}

#[test]
fn map_commutes_with_fallback() {
    for (d, b) in [(Some(3), Some(5)), (None, Some(5)), (Some(3), None), (None, None)] {
        let g = |i: i32| i * 10;
        assert_eq!(Fallback::new(d, b).map(g).unzip(), (d.map(g), b.map(g)));
        assert_eq!(Fallback::new(d, b).map(g).fallback(), Fallback::new(d, b).fallback().map(g));
    }
}
