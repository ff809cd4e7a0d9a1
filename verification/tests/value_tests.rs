use net_replay_test::error::Error;
use net_replay_test::implementations::NodeImpl;
use net_replay_test::json::Json;
use net_replay_test::value::CommonValue;

fn value_with_names(names: &[&str]) -> CommonValue {
    CommonValue {
        name: Some(String::from("srv")),
        map: Some(String::from("dust")),
        has_password: Some(false),
        players_online: Some(names.len() as u64),
        players_maximum: Some(16),
        player_names: names.iter().map(|n| String::from(*n)).collect(),
    }
}

#[test]
fn equality_ignores_name_order() {
    let a = value_with_names(&["Alice", "Bob"]);
    let b = value_with_names(&["Bob", "Alice"]);
    assert!(a == b);
}

#[test]
fn equality_ignores_duplicates() {
    let mut a = value_with_names(&["Alice", "Alice", "Bob"]);
    a.players_online = Some(2);
    let b = value_with_names(&["Bob", "Alice"]);
    assert!(a == b);
}

#[test]
fn equality_is_field_wise() {
    let a = value_with_names(&["Alice"]);
    let mut b = value_with_names(&["Alice"]);
    b.map = Some(String::from("other"));
    assert!(a != b);

    let mut c = value_with_names(&["Alice"]);
    c.player_names = vec![String::from("Mallory")];
    assert!(a != c);
}

#[test]
fn difference_reports_both_sides() {
    let a = value_with_names(&["Alice", "Bob"]);
    let mut b = value_with_names(&["Bob", "Carol"]);
    b.players_maximum = Some(32);

    let d = a.difference(&b);
    assert!(!d.name_differs);
    assert!(!d.map_differs);
    assert!(!d.has_password_differs);
    assert!(!d.players_online_differs);
    assert!(d.players_maximum_differs);
    assert_eq!(d.missing_names, vec![String::from("Alice")]);
    assert_eq!(d.extra_names, vec![String::from("Carol")]);
}

fn player(name: &str) -> Json {
    Json::Object(vec![(String::from("name"), Json::Str(String::from(name)))])
}

#[test]
fn node_decode_maps_known_keys() {
    let doc = Json::Object(vec![
        (String::from("name"), Json::Str(String::from("srv"))),
        (String::from("map"), Json::Str(String::from("dust"))),
        (String::from("password"), Json::Bool(false)),
        (
            String::from("players"),
            Json::Array(vec![player("Alice"), player("Bob"), Json::Object(Vec::new())]),
        ),
        (String::from("maxplayers"), Json::Num(Some(16))),
    ]);

    let c = CommonValue::try_from_node(&doc).unwrap();
    assert_eq!(c.name, Some(String::from("srv")));
    assert_eq!(c.map, Some(String::from("dust")));
    assert_eq!(c.has_password, Some(false));
    assert_eq!(c.players_online, Some(3));
    assert_eq!(c.players_maximum, Some(16));
    assert_eq!(c.player_names, vec![String::from("Alice"), String::from("Bob")]);
}

#[test]
fn node_decode_missing_fields_are_none() {
    let doc = Json::Object(Vec::new());
    let c = CommonValue::try_from_node(&doc).unwrap();
    assert_eq!(c.name, None);
    assert_eq!(c.map, None);
    assert_eq!(c.has_password, None);
    assert_eq!(c.players_online, None);
    assert_eq!(c.players_maximum, None);
    assert!(c.player_names.is_empty());
}

#[test]
fn node_decode_surfaces_error_entry() {
    let doc = Json::Object(vec![(String::from("error"), Json::Str(String::from("boom")))]);
    let r = CommonValue::try_from_node(&doc);
    assert_eq!(r.err(), Some(Error::Message(String::from("boom"))));
}

#[test]
fn node_decode_rejects_non_object() {
    let r = CommonValue::try_from_node(&Json::Null);
    assert_eq!(
        r.err(),
        Some(Error::Message(String::from("Node response is not an object")))
    );
}

#[test]
fn from_parts_dedups_names() {
    let c = CommonValue::from_parts(
        Some(String::from("srv")),
        None,
        Some(true),
        Some(3),
        Some(8),
        Some(vec![String::from("A"), String::from("B"), String::from("A")]),
    );
    assert_eq!(c.name, Some(String::from("srv")));
    assert_eq!(c.map, None);
    assert_eq!(c.has_password, Some(true));
    assert_eq!(c.players_online, Some(3));
    assert_eq!(c.players_maximum, Some(8));
    assert_eq!(c.player_names, vec![String::from("A"), String::from("B")]);
}

#[test]
fn node_backend_defaults() {
    let node = NodeImpl::default();
    assert_eq!(node.node_path, "node");
    assert_eq!(node.gamedig_path, "./node-gamedig/bin/gamedig.js");
    assert!(node.node_args.is_none());
}
