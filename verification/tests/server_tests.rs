use hab_builder::bodies::{err, Connect, NetError};
use hab_builder::conn::{ConnErr, SocketError};
use hab_builder::message::{decode, encode, ErrCode, Header, Message, Protocol, ProtocolError, RouteInfo, Txn};
use hab_builder::router::ServerMap;
use hab_builder::server::{
    forward, handle_message, on_connect, on_disconnect, on_heartbeat, route_message, select_shard, server_step,
    wait_timeout, RouteAction, ServerStep,
};

fn routed(id: &str, protocol: Protocol, hash: Option<u64>, sender: Option<&str>) -> Message {
    let mut m = Message::default();
    if let Some(s) = sender {
        m.push_identity(s.as_bytes().to_vec()).unwrap();
    }
    let h = Header::new(Some(id.to_string()), Some(true), Some(false));
    m.set_header(&h.to_bytes().unwrap()).unwrap();
    m.set_routing(&RouteInfo::new(protocol, hash).to_bytes().unwrap()).unwrap();
    m.set_txn(&Txn::new(Some(9), Some(false)).to_bytes().unwrap()).unwrap();
    m
}

fn connect_message(sender: &str, shards: Vec<u32>) -> Message {
    let mut m = routed("Connect", Protocol::RouteSrv, None, Some(sender));
    m.set_body(&Connect::new(shards)).unwrap();
    m
}

#[test]
fn select_shard_by_hash() {
    let mut servers = ServerMap::new();
    assert!(servers.add_at(Protocol::JobSrv, "srv2".to_string(), vec![2], 0));
    // 130 modulo the shard count is 2
    let m = routed("Job", Protocol::JobSrv, Some(130), Some("client"));
    assert_eq!(select_shard(&servers, &m), Some("srv2"));
    let m = routed("Job", Protocol::JobSrv, Some(3), Some("client"));
    assert_eq!(select_shard(&servers, &m), None);
    let m = routed("Job", Protocol::SessionSrv, Some(2), Some("client"));
    assert_eq!(select_shard(&servers, &m), None);
}

#[test]
fn select_shard_without_hash_picks_a_held_shard() {
    let mut servers = ServerMap::new();
    assert!(servers.add_at(Protocol::JobSrv, "srv".to_string(), vec![77], 0));
    assert!(servers.add_at(Protocol::SessionSrv, "other".to_string(), vec![3], 0));
    let m = routed("Job", Protocol::JobSrv, None, Some("client"));
    for _ in 0..50 {
        assert_eq!(select_shard(&servers, &m), Some("srv"));
    }
    // a shard id past the shard count is still picked when it is the one registered
    let mut far = ServerMap::new();
    assert!(far.add_at(Protocol::JobSrv, "far".to_string(), vec![5000], 0));
    assert_eq!(select_shard(&far, &m), Some("far"));
    let empty = ServerMap::new();
    assert_eq!(select_shard(&empty, &m), None);
    let other = routed("Origin", Protocol::OriginSrv, None, Some("client"));
    assert_eq!(select_shard(&servers, &other), None);
}

#[test]
fn route_without_hash_goes_to_a_registered_server() {
    let mut servers = ServerMap::new();
    assert!(servers.add_at(Protocol::JobSrv, "srv-a".to_string(), vec![9], 0));
    assert!(servers.add_at(Protocol::JobSrv, "srv-b".to_string(), vec![100], 0));
    for _ in 0..20 {
        let mut m = routed("JobSpec", Protocol::JobSrv, None, Some("client"));
        assert!(matches!(route_message(&mut servers, &mut m), RouteAction::Forward));
        let last = m.identities()[1].clone();
        assert!(last == "srv-a" || last == "srv-b");
    }
    let mut m = routed("JobSpec", Protocol::Scheduler, None, Some("client"));
    assert!(matches!(route_message(&mut servers, &mut m), RouteAction::NoShard));
}

#[test]
fn forward_appends_the_destination() {
    let mut m = routed("Job", Protocol::JobSrv, Some(1), Some("client"));
    forward(&mut m, b"srv1".to_vec()).unwrap();
    assert_eq!(m.identities().clone(), vec!["client".to_string(), "srv1".to_string()]);
    match forward(&mut m, vec![0xff, 0xfe]) {
        Err(ConnErr::Protocol(ProtocolError::IdentityDecode(b))) => assert_eq!(b, vec![0xff, 0xfe]),
        other => panic!("unexpected {:?}", other),
    }
    assert_eq!(m.identities().len(), 2);
    let mut bare = Message::default();
    assert!(matches!(forward(&mut bare, b"srv".to_vec()), Err(ConnErr::NoRouteInfo)));
    assert!(bare.identities().is_empty());
}

#[test]
fn connect_is_accepted() {
    let mut servers = ServerMap::new();
    let mut m = connect_message("srv1", vec![4, 5]);
    on_connect(&mut m, &mut servers).unwrap();
    assert!(m.body().is_empty());
    assert_eq!(servers.get(&Protocol::RouteSrv, &4).unwrap().endpoint, "srv1");
    assert_eq!(servers.get(&Protocol::RouteSrv, &5).unwrap().endpoint, "srv1");
    assert_eq!(m.sender().unwrap(), "srv1");
}

#[test]
fn connect_conflict_is_answered_with_an_error() {
    let mut servers = ServerMap::new();
    let mut first = connect_message("srv1", vec![4]);
    on_connect(&mut first, &mut servers).unwrap();
    let mut m = connect_message("srv2", vec![4, 6]);
    on_connect(&mut m, &mut servers).unwrap();
    let reply: NetError = m.parse().unwrap();
    assert_eq!(reply.code(), ErrCode::REG_CONFLICT);
    assert_eq!(reply.msg(), "rt:connect:1");
    assert_eq!(m.body().clone(), encode(&err(ErrCode::REG_CONFLICT, "rt:connect:1")).unwrap());
    assert!(servers.get(&Protocol::RouteSrv, &6).is_none());
    assert_eq!(servers.get(&Protocol::RouteSrv, &4).unwrap().endpoint, "srv1");
}

#[test]
fn connect_refusals() {
    let mut servers = ServerMap::new();
    let mut anon = routed("Connect", Protocol::RouteSrv, None, None);
    anon.set_body(&Connect::new(vec![1])).unwrap();
    assert!(matches!(on_connect(&mut anon, &mut servers), Err(ProtocolError::MsgNotInitialized)));
    let mut bad = routed("Connect", Protocol::RouteSrv, None, Some("srv"));
    bad.set_body_bytes(vec![0x0a]);
    assert!(matches!(on_connect(&mut bad, &mut servers), Err(ProtocolError::Decode)));
    assert_eq!(bad.body().clone(), vec![0x0a]);
    assert!(servers.get(&Protocol::RouteSrv, &1).is_none());
}

#[test]
fn disconnect_and_heartbeat() {
    let mut servers = ServerMap::new();
    let mut c = connect_message("srv1", vec![1]);
    on_connect(&mut c, &mut servers).unwrap();
    let mut hb = routed("Heartbeat", Protocol::RouteSrv, None, Some("srv1"));
    on_heartbeat(&mut hb, &mut servers).unwrap();
    assert_eq!(servers.get(&Protocol::RouteSrv, &1).unwrap().endpoint, "srv1");
    let mut d = routed("Disconnect", Protocol::RouteSrv, None, Some("srv1"));
    on_disconnect(&mut d, &mut servers).unwrap();
    assert!(servers.get(&Protocol::RouteSrv, &1).is_none());
    let mut anon = routed("Heartbeat", Protocol::RouteSrv, None, None);
    assert!(matches!(on_heartbeat(&mut anon, &mut servers), Err(ProtocolError::MsgNotInitialized)));
    assert!(matches!(on_disconnect(&mut anon, &mut servers), Err(ProtocolError::MsgNotInitialized)));
}

#[test]
fn handle_message_by_id() {
    let mut servers = ServerMap::new();
    let mut c = connect_message("srv1", vec![1]);
    assert_eq!(handle_message(&mut servers, &mut c).unwrap(), true);
    let mut hb = routed("Heartbeat", Protocol::RouteSrv, None, Some("srv1"));
    assert_eq!(handle_message(&mut servers, &mut hb).unwrap(), false);
    let mut other = routed("Ping", Protocol::RouteSrv, None, Some("srv1"));
    assert_eq!(handle_message(&mut servers, &mut other).unwrap(), false);
    let mut d = routed("Disconnect", Protocol::RouteSrv, None, Some("srv1"));
    assert_eq!(handle_message(&mut servers, &mut d).unwrap(), false);
    assert!(servers.get(&Protocol::RouteSrv, &1).is_none());
}

#[test]
fn route_router_messages() {
    let mut servers = ServerMap::new();
    let mut c = connect_message("srv1", vec![1]);
    assert!(matches!(route_message(&mut servers, &mut c), RouteAction::Reply));
    let mut hb = routed("Heartbeat", Protocol::RouteSrv, None, Some("srv1"));
    assert!(matches!(route_message(&mut servers, &mut hb), RouteAction::Drop));
    let mut anon = routed("Heartbeat", Protocol::RouteSrv, None, None);
    assert!(matches!(
        route_message(&mut servers, &mut anon),
        RouteAction::HandlerFailed(ProtocolError::MsgNotInitialized)
    ));
}

#[test]
fn route_net_messages_are_unroutable() {
    let mut servers = ServerMap::new();
    let mut m = routed("Ping", Protocol::Net, Some(1), Some("client"));
    assert!(matches!(route_message(&mut servers, &mut m), RouteAction::Unroutable));
    assert_eq!(m.identities().len(), 1);
}

#[test]
fn route_to_the_shard_holder() {
    let mut servers = ServerMap::new();
    assert!(servers.add_at(Protocol::JobSrv, "srv-jobs".to_string(), vec![5], 0));
    let mut m = routed("JobSpec", Protocol::JobSrv, Some(133), Some("client"));
    assert!(matches!(route_message(&mut servers, &mut m), RouteAction::Forward));
    assert_eq!(m.identities().clone(), vec!["client".to_string(), "srv-jobs".to_string()]);
}

#[test]
fn route_without_a_holder_answers_no_shard() {
    let mut servers = ServerMap::new();
    let mut m = routed("JobSpec", Protocol::JobSrv, Some(7), Some("client"));
    assert!(matches!(route_message(&mut servers, &mut m), RouteAction::NoShard));
    let body: NetError = decode(m.body()).unwrap();
    assert_eq!(body.code(), ErrCode::NO_SHARD);
    assert_eq!(body.msg(), "rt:route:1");
    assert_eq!(m.identities().clone(), vec!["client".to_string()]);
}

#[test]
fn server_steps() {
    assert!(matches!(server_step(Ok(())), ServerStep::Route));
    assert!(matches!(server_step(Err(ConnErr::Shutdown(SocketError::Interrupted))), ServerStep::Stop));
    assert!(matches!(
        server_step(Err(ConnErr::Socket(SocketError::Other(5)))),
        ServerStep::Fail(ConnErr::Socket(SocketError::Other(5)))
    ));
    assert!(matches!(server_step(Err(ConnErr::Timeout)), ServerStep::Wait));
    assert!(matches!(server_step(Err(ConnErr::NoBody)), ServerStep::Skip(ConnErr::NoBody)));
    assert_eq!(wait_timeout(), 30_000);
}

#[test]
fn dropped_server_no_longer_receives() {
    let mut servers = ServerMap::new();
    assert!(servers.add_at(Protocol::JobSrv, "srv-jobs".to_string(), vec![5], 0));
    let mut bye = routed("Disconnect", Protocol::RouteSrv, None, Some("srv-jobs"));
    // the disconnection comes under the router's own protocol, and drops that protocol's registrations
    assert!(matches!(route_message(&mut servers, &mut bye), RouteAction::Drop));
    assert_eq!(servers.get(&Protocol::JobSrv, &5).unwrap().endpoint, "srv-jobs");
    servers.drop(&Protocol::JobSrv, "srv-jobs");
    let mut m = routed("JobSpec", Protocol::JobSrv, Some(5), Some("client"));
    assert!(matches!(route_message(&mut servers, &mut m), RouteAction::NoShard));
    let body: NetError = decode(m.body()).unwrap();
    assert_eq!(body.code(), ErrCode::NO_SHARD);
}

#[test]
fn heartbeats_and_unknown_ids_need_no_routing_frame() {
    let mut servers = ServerMap::new();
    let mut c = connect_message("srv1", vec![1]);
    assert_eq!(handle_message(&mut servers, &mut c).unwrap(), true);
    let mut hb = Message::default();
    hb.push_identity(b"srv1".to_vec()).unwrap();
    hb.set_header(&Header::new(Some("Heartbeat".to_string()), None, None).to_bytes().unwrap()).unwrap();
    assert_eq!(handle_message(&mut servers, &mut hb).unwrap(), false);
    assert_eq!(servers.get(&Protocol::RouteSrv, &1).unwrap().endpoint, "srv1");
    let mut other = Message::default();
    other.set_header(&Header::new(Some("Ping".to_string()), None, None).to_bytes().unwrap()).unwrap();
    assert_eq!(handle_message(&mut servers, &mut other).unwrap(), false);
}
