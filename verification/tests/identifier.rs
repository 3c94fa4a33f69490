use ipc_agent::error::Error;
use ipc_agent::subnet_id::SubnetIdentifier;

#[test]
fn parse_round_trip() {
    let id = SubnetIdentifier::parse("/r314159/t0100").unwrap();
    let text = id.to_string();
    assert_eq!(text, "/r314159/t0100");
    let again = SubnetIdentifier::parse(&text).unwrap();
    assert!(id == again);
}

#[test]
fn parse_round_trip_root() {
    let id = SubnetIdentifier::parse("/r314159").unwrap();
    assert_eq!(id.to_string(), "/r314159");
    assert_eq!(id.depth(), 1);
}

#[test]
fn parse_round_trip_deep() {
    let text = "/root/child1/child2";
    let id = SubnetIdentifier::parse(text).unwrap();
    assert_eq!(id.depth(), 3);
    assert_eq!(id.to_string(), text);
}

#[test]
fn parse_rejects_empty() {
    assert!(matches!(SubnetIdentifier::parse(""), Err(Error::MalformedIdentifier)));
}

#[test]
fn parse_rejects_no_leading_slash() {
    assert!(matches!(SubnetIdentifier::parse("r314159"), Err(Error::MalformedIdentifier)));
}

#[test]
fn parse_rejects_lone_slash() {
    assert!(matches!(SubnetIdentifier::parse("/"), Err(Error::MalformedIdentifier)));
}

#[test]
fn parse_rejects_trailing_slash() {
    assert!(matches!(SubnetIdentifier::parse("/r314159/"), Err(Error::MalformedIdentifier)));
}

#[test]
fn parse_rejects_empty_segment() {
    assert!(matches!(SubnetIdentifier::parse("/r314159//child"), Err(Error::MalformedIdentifier)));
}

#[test]
fn parse_rejects_bad_character() {
    assert!(matches!(SubnetIdentifier::parse("/r314159/ch ild"), Err(Error::MalformedIdentifier)));
    assert!(matches!(SubnetIdentifier::parse("/r31.4159"), Err(Error::MalformedIdentifier)));
}

#[test]
fn parent_of_depth_two_lands_on_grandparent() {
    let child = SubnetIdentifier::parse("/root/child1/child2").unwrap();
    let parent = child.parent().unwrap();
    assert_eq!(parent.to_string(), "/root/child1");
    let grandparent = parent.parent().unwrap();
    assert_eq!(grandparent.to_string(), "/root");
}

#[test]
fn parent_of_root_is_none() {
    let root = SubnetIdentifier::parse("/r314159").unwrap();
    assert!(root.parent().is_none());
}

#[test]
fn identifier_equality_is_by_segments() {
    let a = SubnetIdentifier::parse("/r314159/t0100").unwrap();
    let b = SubnetIdentifier::parse("/r314159/t0100").unwrap();
    let c = SubnetIdentifier::parse("/r314159/t0200").unwrap();
    assert!(a == b);
    assert!(a != c);
}
