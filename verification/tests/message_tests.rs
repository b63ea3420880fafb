use hab_builder::bodies::{err, Connect, Heartbeat, NetError, NetOk};
use hab_builder::message::{decode, encode, ErrCode, Header, Message, Protocol, ProtocolError, RouteInfo, Txn};
use hab_builder::routing::message_protocol as protocol_of_name;

#[test]
fn message_protocol() {
    assert_eq!(protocol_of_name("jobsrv.Job"), Some(Protocol::JobSrv));
    assert_eq!(protocol_of_name("net.Ping"), Some(Protocol::Net));
    assert_eq!(protocol_of_name("routesrv.Connect"), Some(Protocol::RouteSrv));
    assert_eq!(protocol_of_name("sessionsrv.Session"), Some(Protocol::SessionSrv));
    assert_eq!(protocol_of_name("originsrv.Origin"), Some(Protocol::OriginSrv));
    assert_eq!(protocol_of_name("scheduler.GroupCreate"), Some(Protocol::Scheduler));
}

#[test]
fn message_protocol_unknown_package() {
    assert_eq!(protocol_of_name("vault.Thing"), None);
    assert_eq!(protocol_of_name("net"), Some(Protocol::Net));
    assert_eq!(protocol_of_name(""), None);
}

#[test]
fn header_bytes_are_protobuf() {
    let h = Header::new(Some("Connect".to_string()), Some(true), None);
    let bytes = h.to_bytes().unwrap();
    let mut expected = vec![0x0a, 7];
    expected.extend_from_slice(b"Connect");
    expected.extend_from_slice(&[0x10, 1]);
    assert_eq!(bytes, expected);
}

#[test]
fn header_roundtrip() {
    let h = Header::new(Some("Heartbeat".to_string()), Some(true), Some(false));
    let bytes = h.to_bytes().unwrap();
    let back = Header::from_bytes(&bytes).unwrap();
    assert_eq!(back.message_id(), "Heartbeat");
    assert!(back.has_route_info());
    assert!(back.has_txn());
    assert_eq!(back.to_bytes().unwrap(), bytes);
}

#[test]
fn header_flag_set_to_false_still_announces() {
    let h = Header::new(None, Some(false), None);
    let back = Header::from_bytes(&h.to_bytes().unwrap()).unwrap();
    assert!(back.has_route_info());
    assert!(!back.has_txn());
    assert_eq!(back.message_id(), "");
}

#[test]
fn header_keeps_unknown_fields() {
    // field 9, varint 5; then field 1 "x"
    let bytes = vec![0x48, 5, 0x0a, 1, b'x'];
    let h = Header::from_bytes(&bytes).unwrap();
    assert_eq!(h.message_id(), "x");
    assert_eq!(h.to_bytes().unwrap(), vec![0x0a, 1, b'x', 0x48, 5]);
}

#[test]
fn header_skips_unknown_group() {
    // field 9 start-group, field 1 varint 3 inside, field 9 end-group, then field 2 true
    let bytes = vec![0x4b, 0x08, 3, 0x4c, 0x10, 1];
    let h = Header::from_bytes(&bytes).unwrap();
    assert!(h.has_route_info());
    assert_eq!(h.to_bytes().unwrap(), vec![0x10, 1]);
}

#[test]
fn header_decode_errors() {
    // truncated varint
    assert!(matches!(Header::from_bytes(&[0x10]), Err(ProtocolError::Decode)));
    // message_id with a varint wire type
    assert!(matches!(Header::from_bytes(&[0x08, 1]), Err(ProtocolError::Decode)));
    // field number zero
    assert!(matches!(Header::from_bytes(&[0x00, 1]), Err(ProtocolError::Decode)));
    // string that is not UTF-8
    assert!(matches!(Header::from_bytes(&[0x0a, 1, 0xff]), Err(ProtocolError::Decode)));
    // length past the end
    assert!(matches!(Header::from_bytes(&[0x0a, 5, b'a']), Err(ProtocolError::Decode)));
}

#[test]
fn header_last_value_wins() {
    let bytes = vec![0x0a, 1, b'a', 0x0a, 1, b'b', 0x18, 0];
    let h = Header::from_bytes(&bytes).unwrap();
    assert_eq!(h.message_id(), "b");
    assert!(h.has_txn());
}

#[test]
fn header_clear() {
    let mut h = Header::new(Some("Connect".to_string()), Some(true), Some(true));
    h.clear();
    assert_eq!(h.message_id(), "");
    assert!(!h.has_route_info());
    assert!(!h.has_txn());
    assert_eq!(h.to_bytes().unwrap(), Vec::<u8>::new());
}

#[test]
fn route_info_bytes_and_roundtrip() {
    let r = RouteInfo::new(Protocol::JobSrv, Some(300));
    let bytes = r.to_bytes().unwrap();
    assert_eq!(bytes, vec![0x08, 4, 0x10, 0xac, 0x02]);
    let back = RouteInfo::from_bytes(&bytes).unwrap();
    assert_eq!(back.protocol(), Protocol::JobSrv);
    assert_eq!(back.hash(), Some(300));
}

#[test]
fn route_info_defaults_and_bad_protocol() {
    let r = RouteInfo::from_bytes(&[]).unwrap();
    assert_eq!(r.protocol(), Protocol::Net);
    assert_eq!(r.hash(), None);
    // protocol number 42 names no protocol
    assert!(matches!(RouteInfo::from_bytes(&[0x08, 42]), Err(ProtocolError::Decode)));
    let mut r = RouteInfo::new(Protocol::Scheduler, Some(u64::MAX));
    let back = RouteInfo::from_bytes(&r.to_bytes().unwrap()).unwrap();
    assert_eq!(back.hash(), Some(u64::MAX));
    r.clear();
    assert_eq!(r.protocol(), Protocol::Net);
}

#[test]
fn txn_fields() {
    let mut t = Txn::new(Some(7), None);
    assert_eq!(t.id(), 7);
    assert!(!t.is_complete());
    t.set_complete(true);
    assert!(t.is_complete());
    let bytes = t.to_bytes().unwrap();
    assert_eq!(bytes, vec![0x08, 7, 0x10, 1]);
    let back = Txn::from_bytes(&bytes).unwrap();
    assert_eq!(back.id(), 7);
    assert!(back.is_complete());
    let empty = Txn::from_bytes(&[]).unwrap();
    assert_eq!(empty.id(), 0);
    assert!(!empty.is_complete());
}

#[test]
fn bool_reads_low_32_bits() {
    // varint 2^32 has zero low bits: read as false
    let bytes = vec![0x10, 0x80, 0x80, 0x80, 0x80, 0x10];
    let t = Txn::from_bytes(&bytes).unwrap();
    assert!(!t.is_complete());
}

#[test]
fn connect_shards_unpacked_and_packed() {
    let c = Connect::new(vec![1, 2, 300]);
    let bytes = encode(&c).unwrap();
    assert_eq!(bytes, vec![0x08, 1, 0x08, 2, 0x08, 0xac, 0x02]);
    let mut back: Connect = decode(&bytes).unwrap();
    assert_eq!(back.take_shards(), vec![1, 2, 300]);
    assert!(back.shards().is_empty());
    // packed: field 1, length 3, varints 5, 6, 7
    let packed: Connect = decode(&[0x0a, 3, 5, 6, 7, 0x08, 9]).unwrap();
    assert_eq!(packed.shards().clone(), vec![5, 6, 7, 9]);
}

#[test]
fn net_error_and_ok_bodies() {
    let e = err(ErrCode::NO_SHARD, "rt:route:1");
    let bytes = encode(&e).unwrap();
    let mut expected = vec![0x08, 6, 0x12, 10];
    expected.extend_from_slice(b"rt:route:1");
    assert_eq!(bytes, expected);
    let back: NetError = decode(&bytes).unwrap();
    assert_eq!(back.code(), ErrCode::NO_SHARD);
    assert_eq!(back.msg(), "rt:route:1");
    assert_eq!(encode(&NetOk::new()).unwrap(), Vec::<u8>::new());
    assert_eq!(encode(&Heartbeat::new()).unwrap(), Vec::<u8>::new());
    let ok: NetOk = decode(&[0x08, 1]).unwrap();
    assert_eq!(encode(&ok).unwrap(), vec![0x08, 1]);
}

#[test]
fn message_default_and_reset() {
    let mut m = Message::default();
    assert!(m.identities().is_empty());
    assert!(m.body().is_empty());
    assert!(m.route_info().is_none());
    assert!(m.txn().is_none());
    assert_eq!(m.message_id(), "");
    m.push_identity(b"a".to_vec()).unwrap();
    m.set_body_bytes(vec![1, 2, 3]);
    m.set_routing(&RouteInfo::new(Protocol::JobSrv, None).to_bytes().unwrap()).unwrap();
    m.set_txn(&Txn::new(Some(1), None).to_bytes().unwrap()).unwrap();
    m.reset();
    assert!(m.identities().is_empty());
    assert!(m.body().is_empty());
    assert!(m.route_info().is_none());
    assert!(m.txn().is_none());
}

#[test]
fn sender_is_first_identity() {
    let mut m = Message::default();
    assert!(matches!(m.sender(), Err(ProtocolError::MsgNotInitialized)));
    m.push_identity(b"client@host".to_vec()).unwrap();
    m.push_identity(b"router".to_vec()).unwrap();
    assert_eq!(m.sender().unwrap(), "client@host");
    assert_eq!(m.identities().len(), 2);
    assert_eq!(m.identities, vec!["client@host".to_string(), "router".to_string()]);
    m.identities.clear();
    assert!(matches!(m.sender(), Err(ProtocolError::MsgNotInitialized)));
}

#[test]
fn push_identity_rejects_invalid_utf8() {
    let mut m = Message::default();
    match m.push_identity(vec![0xc3, 0x28]) {
        Err(ProtocolError::IdentityDecode(b)) => assert_eq!(b, vec![0xc3, 0x28]),
        other => panic!("unexpected {:?}", other),
    }
    assert!(m.identities().is_empty());
}

#[test]
fn set_frames_keep_message_on_error() {
    let mut m = Message::default();
    let h = Header::new(Some("Job".to_string()), Some(true), None);
    m.set_header(&h.to_bytes().unwrap()).unwrap();
    assert_eq!(m.message_id(), "Job");
    assert!(m.set_header(&[0xff]).is_err());
    assert_eq!(m.message_id(), "Job");
    assert!(m.set_routing(&[0x08, 99]).is_err());
    assert!(m.route_info().is_none());
    assert!(m.set_txn(&[0x08]).is_err());
    assert!(m.txn().is_none());
}

#[test]
fn parse_and_set_body() {
    let mut m = Message::default();
    m.set_body(&Connect::new(vec![3, 4])).unwrap();
    let c: Connect = m.parse().unwrap();
    assert_eq!(c.shards().clone(), vec![3, 4]);
    m.set_body_bytes(vec![0x0a]);
    assert!(matches!(m.parse::<Connect>(), Err(ProtocolError::Decode)));
    // A packed run whose length runs past the input ends with the input.
    m.set_body_bytes(vec![0x0a, 9, 7]);
    let c: Connect = m.parse().unwrap();
    assert_eq!(c.shards().clone(), vec![7]);
}

#[test]
fn txn_mut_changes_the_message() {
    let mut m = Message::default();
    assert!(m.txn_mut().is_none());
    m.set_txn(&Txn::new(Some(5), Some(false)).to_bytes().unwrap()).unwrap();
    m.txn_mut().unwrap().set_complete(true);
    assert!(m.txn().unwrap().is_complete());
    assert_eq!(m.txn().unwrap().id(), 5);
}

#[test]
fn describe_message() {
    let mut m = Message::default();
    assert_eq!(m.describe(), "[]");
    m.set_header(&Header::new(Some("Connect".to_string()), Some(true), Some(true)).to_bytes().unwrap())
        .unwrap();
    m.push_identity(b"srv1".to_vec()).unwrap();
    m.set_routing(&RouteInfo::new(Protocol::RouteSrv, Some(42)).to_bytes().unwrap()).unwrap();
    m.set_txn(&Txn::new(Some(12), Some(true)).to_bytes().unwrap()).unwrap();
    assert_eq!(
        m.describe(),
        "[Connect] srv1, proto=RouteSrv, hash=42, txn_id=12, txn_complete=true"
    );
}

#[test]
fn protocol_numbers() {
    for p in [
        Protocol::Net,
        Protocol::RouteSrv,
        Protocol::SessionSrv,
        Protocol::OriginSrv,
        Protocol::JobSrv,
        Protocol::Scheduler,
    ] {
        assert_eq!(Protocol::from_i32(p.value()), Some(p));
    }
    assert_eq!(Protocol::from_i32(6), None);
    assert_eq!(ErrCode::from_i32(ErrCode::REG_CONFLICT.value()), Some(ErrCode::REG_CONFLICT));
    assert_eq!(ErrCode::from_i32(5), None);
}

#[test]
fn unknown_values_of_every_wire_type_are_kept() {
    // field 9 fixed32, field 10 fixed64, field 11 bytes "hi", field 12 varint 300
    let bytes = vec![
        0x4d, 1, 2, 3, 4, //
        0x51, 1, 2, 3, 4, 5, 6, 7, 8, //
        0x5a, 2, b'h', b'i', //
        0x60, 0xac, 0x02,
    ];
    let h = Header::from_bytes(&bytes).unwrap();
    assert_eq!(h.message_id(), "");
    assert_eq!(h.to_bytes().unwrap(), bytes);
    // a truncated fixed64 is refused
    assert!(matches!(Header::from_bytes(&[0x51, 1, 2, 3]), Err(ProtocolError::Decode)));
    // an end-group tag outside a group is refused
    assert!(matches!(Header::from_bytes(&[0x4c]), Err(ProtocolError::Decode)));
}

#[test]
fn negative_enum_values_are_sign_extended() {
    // field 1 of a net error, varint of -1 as a 64-bit value: no error code has that number
    let bytes = vec![0x08, 0xff, 0xff, 0xff, 0xff, 0xff, 0xff, 0xff, 0xff, 0xff, 0x01];
    assert!(matches!(decode::<NetError>(&bytes), Err(ProtocolError::Decode)));
    let ok: NetError = decode(&[0x08, 14]).unwrap();
    assert_eq!(ok.code(), ErrCode::REG_NOT_FOUND);
}

#[test]
fn unknown_fields_are_kept_grouped_by_number_and_wire_type() {
    // field 10 varint 1, field 9 bytes "a", field 10 fixed32, field 10 varint 2, field 9 fixed64
    let bytes = vec![
        0x50, 1, //
        0x4a, 1, b'a', //
        0x55, 1, 2, 3, 4, //
        0x50, 2, //
        0x49, 8, 7, 6, 5, 4, 3, 2, 1,
    ];
    let h = Header::from_bytes(&bytes).unwrap();
    let expected = vec![
        0x49, 8, 7, 6, 5, 4, 3, 2, 1, // field 9: fixed64 before bytes
        0x4a, 1, b'a', //
        0x55, 1, 2, 3, 4, // field 10: fixed32 before varints
        0x50, 1, //
        0x50, 2,
    ];
    assert_eq!(h.to_bytes().unwrap(), expected);
    assert_eq!(Header::from_bytes(&expected).unwrap().to_bytes().unwrap(), expected);
}
