use textual::statistics::Statistics;

#[test]
fn bytes_by_type() {
    let mut s = Statistics::new();
    s.add("image/png", 100);
    s.add("text/html", 30);
    s.add("image/jpeg", 50);
    s.add("image/png", 1);
    assert_eq!(s.sent("image/png"), 101);
    assert_eq!(s.sent("text/plain"), 0);
    assert_eq!(s.image(), 151);
    assert_eq!(s.html(), 30);
    assert_eq!(s.requests(), 4);
}

#[test]
fn empty_statistics() {
    let s = Statistics::new();
    assert_eq!(s.image(), 0);
    assert_eq!(s.html(), 0);
    assert_eq!(s.requests(), 0);
}

#[test]
fn default_statistics_are_empty() {
    let mut s = Statistics::default();
    assert_eq!(s.sent("image/png"), 0);
    s.add("image/gif".to_string().as_str(), 7);
    assert_eq!(s.image(), 7);
}

#[test]
fn total_counts_every_type() {
    let mut s = Statistics::new();
    s.add("text/html", 5);
    s.add("image/png", 6);
    assert_eq!(s.total(), 11);
}
