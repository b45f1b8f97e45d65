use ayaka::fd_map::FDMap;

#[test]
fn fd_map_reuses_freed_descriptors() {
    let mut m: FDMap<&str> = FDMap::new();
    assert_eq!(m.open("a"), 1);
    assert_eq!(m.open("b"), 2);
    assert_eq!(m.open("c"), 3);
    m.close(2);
    assert_eq!(m.open("d"), 2);
    m.close(3);
    m.close(1);
    assert_eq!(m.open("e"), 1);
    assert_eq!(m.open("f"), 3);
    assert_eq!(m.open("g"), 4);
    assert_eq!(m.get_mut(2).map(|f| *f), Some("d"));
    assert!(m.get_mut(7).is_none());
    if let Some(f) = m.get_mut(4) {
        *f = "h";
    }
    assert_eq!(m.get_mut(4).map(|f| *f), Some("h"));
}
