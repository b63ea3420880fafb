use hab_builder::routing::{str_equal, InstaId, RouteKey, SHARD_COUNT};

#[test]
fn string_route_key_is_fnv1a() {
    assert_eq!(String::new().hash(), 0xcbf29ce484222325);
    assert_eq!("a".to_string().hash(), 0xaf63dc4c8601ec8c);
    assert_eq!("foobar".to_string().hash(), 0x85944171f73967e8);
}

#[test]
fn u64_route_key_is_itself() {
    assert_eq!(RouteKey::hash(&42u64), 42);
    assert_eq!(RouteKey::hash(&u64::MAX), u64::MAX);
}

#[test]
fn insta_id_routes_to_its_shard() {
    let id = InstaId((1234u64 << 23) | (77u64 << 10) | 5);
    assert_eq!(id.shard(), 77);
    assert_eq!(RouteKey::hash(&id), 77);
    assert!(id.shard() < SHARD_COUNT as u64);
}

#[test]
fn strings_compare_by_characters() {
    assert!(str_equal("Connect", "Connect"));
    assert!(!str_equal("Connect", "Connec"));
    assert!(str_equal("", ""));
    assert!(!str_equal("é", "e"));
}
