use textual::query::{Parameter, Query, QueryParseError};

#[test]
fn query_values_and_flags() {
    let q = Query::parse("text=hello%20world&forceraw&c=red&text=second").unwrap();
    assert_eq!(q.get_first_value("text"), Some("hello world".to_string()));
    assert_eq!(q.get_first_value("c"), Some("red".to_string()));
    assert_eq!(q.get_first_value("forceraw"), None);
    assert!(q.bool_present("forceraw"));
    assert!(!q.bool_present("text"));
    assert_eq!(q.parameters().len(), 4);
}

#[test]
fn query_value_split_at_first_equals() {
    let q = Query::parse("a=b=c&&x").unwrap();
    assert_eq!(q.get_first_value("a"), Some("b=c".to_string()));
    assert!(q.bool_present(""));
    assert!(matches!(&q.parameters()[2], Parameter::Boolean(k) if k == "x"));
}

#[test]
fn uncode_multibyte() {
    assert_eq!(Query::uncode_string("caf%C3%A9").unwrap(), "café");
    assert_eq!(Query::uncode_string("café").unwrap(), "café");
    assert_eq!(Query::uncode_string("").unwrap(), "");
}

#[test]
fn uncode_errors() {
    assert!(matches!(Query::uncode_string("a%zz"), Err(QueryParseError::ImproperHex('z'))));
    assert!(matches!(Query::uncode_string("a%2z"), Err(QueryParseError::ImproperHex('2'))));
    match Query::uncode_string("a%2") {
        Err(QueryParseError::IncompletePercent(s)) => assert_eq!(s, "%2"),
        other => panic!("unexpected {:?}", other),
    }
    match Query::uncode_string("a%") {
        Err(QueryParseError::IncompletePercent(s)) => assert_eq!(s, "%"),
        other => panic!("unexpected {:?}", other),
    }
    assert!(matches!(Query::uncode_string("%ff"), Err(QueryParseError::InvalidUtf8)));
    assert!(matches!(Query::parse("ok=1&bad=%g0"), Err(QueryParseError::ImproperHex('g'))));
}

#[test]
fn hex_pairs() {
    assert_eq!(Query::from_hex('f', 'F').unwrap(), 255);
    assert_eq!(Query::from_hex('0', 'a').unwrap(), 10);
    assert!(matches!(Query::from_hex('x', '0'), Err(QueryParseError::ImproperHex('x'))));
}

#[test]
fn query_from_str() {
    let q: Query = "text=a%2Bb".parse().unwrap();
    assert_eq!(q.get_first_value("text"), Some("a+b".to_string()));
}
