use hab_builder::message::Protocol;
use hab_builder::router::{clock_ms, ServerMap, ServerReg, PING_INTERVAL, SERVER_TTL};

#[test]
fn clock_milliseconds() {
    assert_eq!(clock_ms(1, 500_000_000), 1500);
    assert_eq!(clock_ms(0, 999_999), 0);
    assert_eq!(clock_ms(-2, 1_000_000), -1999);
    // far from the epoch the arithmetic wraps around
    assert_eq!(clock_ms(i64::MAX, 0), -1000);
    assert_eq!(clock_ms(i64::MIN, 0), 0);
}

#[test]
fn clock_time_is_after_the_epoch() {
    // well past 2017-01-01 in milliseconds
    assert!(ServerReg::clock_time() > 1_483_228_800_000);
}

#[test]
fn registration_times() {
    let r = ServerReg::new_at("srv".to_string(), 10_000);
    assert_eq!(r.endpoint, "srv");
    assert!(!r.alive);
    assert_eq!(r.ping_at, 10_000 + PING_INTERVAL);
    assert_eq!(r.expires, 10_000 + SERVER_TTL);
    let mut r = r;
    r.renew_at(20_000);
    assert_eq!(r.ping_at, 22_000);
    assert_eq!(r.expires, 26_000);
    assert_eq!(r.endpoint, "srv");
    let edge = ServerReg::new_at("x".to_string(), i64::MAX - 1);
    assert_eq!(edge.ping_at, (i64::MAX - 1).wrapping_add(PING_INTERVAL));
    assert_eq!(edge.expires, (i64::MAX - 1).wrapping_add(SERVER_TTL));
    assert_eq!(edge.ping_at, -9223372036854773810);
}

#[test]
fn registration_made_now() {
    let before = ServerReg::clock_time();
    let mut r = ServerReg::new("srv".to_string());
    let after = ServerReg::clock_time();
    assert!(r.ping_at >= before + PING_INTERVAL && r.ping_at <= after + PING_INTERVAL);
    assert_eq!(r.expires - r.ping_at, SERVER_TTL - PING_INTERVAL);
    r.renew();
    assert!(r.ping_at >= before + PING_INTERVAL);
    assert_eq!(r.expires - r.ping_at, SERVER_TTL - PING_INTERVAL);
}

#[test]
fn registrations_equal_by_endpoint() {
    let a = ServerReg::new_at("srv".to_string(), 1);
    let b = ServerReg::new_at("srv".to_string(), 99);
    let c = ServerReg::new_at("other".to_string(), 1);
    assert!(a == b);
    assert!(a != c);
    assert!(a.same_endpoint(&b));
    assert!(!a.same_endpoint(&c));
    let d = a.copy();
    assert_eq!(d.ping_at, a.ping_at);
    assert_eq!(d.endpoint, a.endpoint);
}

#[test]
fn add_registers_every_shard() {
    let mut servers = ServerMap::new();
    assert!(servers.add_at(Protocol::JobSrv, "srv1".to_string(), vec![1, 2], 1000));
    let r = servers.get(&Protocol::JobSrv, &1).unwrap();
    assert_eq!(r.endpoint, "srv1");
    assert_eq!(r.ping_at, 3000);
    assert_eq!(r.expires, 7000);
    assert_eq!(servers.get(&Protocol::JobSrv, &2).unwrap().endpoint, "srv1");
    assert!(servers.get(&Protocol::JobSrv, &3).is_none());
    assert!(servers.get(&Protocol::SessionSrv, &1).is_none());
}

#[test]
fn add_refuses_a_held_shard() {
    let mut servers = ServerMap::new();
    assert!(servers.add_at(Protocol::JobSrv, "srv1".to_string(), vec![1, 2], 1000));
    assert!(!servers.add_at(Protocol::JobSrv, "srv2".to_string(), vec![3, 2], 2000));
    // nothing changed
    assert!(servers.get(&Protocol::JobSrv, &3).is_none());
    assert_eq!(servers.get(&Protocol::JobSrv, &2).unwrap().endpoint, "srv1");
    // the same shards under another protocol are free
    assert!(servers.add_at(Protocol::OriginSrv, "srv2".to_string(), vec![2], 2000));
    // the holder registers again and is renewed
    assert!(servers.add_at(Protocol::JobSrv, "srv1".to_string(), vec![2, 5], 5000));
    assert_eq!(servers.get(&Protocol::JobSrv, &2).unwrap().ping_at, 7000);
    assert_eq!(servers.get(&Protocol::JobSrv, &1).unwrap().ping_at, 3000);
    assert_eq!(servers.get(&Protocol::JobSrv, &5).unwrap().endpoint, "srv1");
}

#[test]
fn add_with_no_shards() {
    let mut servers = ServerMap::new();
    assert!(servers.add(Protocol::Scheduler, "srv".to_string(), vec![]));
    assert!(servers.get(&Protocol::Scheduler, &0).is_none());
}

#[test]
fn drop_removes_the_endpoint() {
    let mut servers = ServerMap::new();
    assert!(servers.add_at(Protocol::JobSrv, "srv1".to_string(), vec![1, 2], 0));
    assert!(servers.add_at(Protocol::JobSrv, "srv2".to_string(), vec![3], 0));
    assert!(servers.add_at(Protocol::SessionSrv, "srv1".to_string(), vec![1], 0));
    servers.drop(&Protocol::JobSrv, "srv1");
    assert!(servers.get(&Protocol::JobSrv, &1).is_none());
    assert!(servers.get(&Protocol::JobSrv, &2).is_none());
    assert_eq!(servers.get(&Protocol::JobSrv, &3).unwrap().endpoint, "srv2");
    assert_eq!(servers.get(&Protocol::SessionSrv, &1).unwrap().endpoint, "srv1");
    // the freed shards can be taken by another server
    assert!(servers.add_at(Protocol::JobSrv, "srv3".to_string(), vec![1, 2], 0));
    // dropping under a protocol with no entry changes nothing
    servers.drop(&Protocol::Scheduler, "srv2");
    assert_eq!(servers.get(&Protocol::JobSrv, &3).unwrap().endpoint, "srv2");
}

#[test]
fn renew_moves_only_the_endpoint_times() {
    let mut servers = ServerMap::new();
    assert!(servers.add_at(Protocol::JobSrv, "srv1".to_string(), vec![1], 0));
    assert!(servers.add_at(Protocol::JobSrv, "srv2".to_string(), vec![2], 0));
    assert!(servers.add_at(Protocol::OriginSrv, "srv1".to_string(), vec![4], 0));
    servers.renew("srv1");
    let now = ServerReg::clock_time();
    let a = servers.get(&Protocol::JobSrv, &1).unwrap();
    assert!(a.ping_at > 1_000_000 && a.ping_at <= now + PING_INTERVAL);
    assert_eq!(a.expires - a.ping_at, SERVER_TTL - PING_INTERVAL);
    assert!(servers.get(&Protocol::OriginSrv, &4).unwrap().ping_at > 1_000_000);
    let b = servers.get(&Protocol::JobSrv, &2).unwrap();
    assert_eq!(b.ping_at, PING_INTERVAL);
    assert_eq!(b.endpoint, "srv2");
}

#[test]
fn renewal_never_moves_expiry_back() {
    let mut r = ServerReg::new_at("srv".to_string(), 50_000);
    let before = r.expires;
    r.renew_at(50_000);
    assert_eq!(r.expires, before);
    r.renew_at(70_000);
    assert!(r.expires >= before);
    assert_eq!(r.expires - r.ping_at, SERVER_TTL - PING_INTERVAL);
    assert_eq!(r.endpoint, "srv");
    assert!(!r.alive);
}

#[test]
fn shards_of_a_protocol() {
    let mut servers = ServerMap::new();
    assert!(servers.shards(&Protocol::JobSrv).is_empty());
    assert!(servers.add_at(Protocol::JobSrv, "a".to_string(), vec![4, 2], 0));
    assert!(servers.add_at(Protocol::JobSrv, "b".to_string(), vec![9], 0));
    let mut held = servers.shards(&Protocol::JobSrv);
    held.sort();
    assert_eq!(held, vec![2, 4, 9]);
    assert!(servers.shards(&Protocol::Net).is_empty());
}
