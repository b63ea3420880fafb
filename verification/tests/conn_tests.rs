use hab_builder::bodies::Connect;
use hab_builder::conn::{complete_txn, frames, on_frame, poll_outcome, ConnErr, ReadStage, SocketError};
use hab_builder::message::{Header, Message, Protocol, ProtocolError, RouteInfo, Txn};

fn sample_message(txn: bool) -> Message {
    let mut m = Message::default();
    m.push_identity(b"client@host".to_vec()).unwrap();
    m.push_identity(b"router".to_vec()).unwrap();
    let header = Header::new(Some("Connect".to_string()), Some(true), if txn { Some(false) } else { None });
    m.set_header(&header.to_bytes().unwrap()).unwrap();
    m.set_routing(&RouteInfo::new(Protocol::JobSrv, Some(7)).to_bytes().unwrap()).unwrap();
    if txn {
        m.set_txn(&Txn::new(Some(3), Some(false)).to_bytes().unwrap()).unwrap();
    }
    m.set_body(&Connect::new(vec![1])).unwrap();
    m
}

#[test]
fn frames_of_a_message() {
    let m = sample_message(true);
    let fs = frames(&m);
    assert_eq!(fs.len(), 7);
    assert_eq!(fs[0], b"client@host".to_vec());
    assert_eq!(fs[1], b"router".to_vec());
    assert_eq!(fs[2], Vec::<u8>::new());
    assert_eq!(fs[3], m.header().to_bytes().unwrap());
    assert_eq!(fs[4], vec![0x08, 4, 0x10, 7]);
    assert_eq!(fs[5], vec![0x08, 3, 0x10, 0]);
    assert_eq!(fs[6], vec![0x08, 1]);
}

#[test]
fn frames_without_transaction() {
    let m = sample_message(false);
    let fs = frames(&m);
    assert_eq!(fs.len(), 6);
    assert_eq!(fs[5], vec![0x08, 1]);
}

#[test]
fn frames_read_back() {
    let sent = sample_message(true);
    let fs = frames(&sent);
    let mut m = Message::default();
    let mut stage = ReadStage::Identity { first: true };
    for f in fs.iter() {
        stage = on_frame(stage, &mut m, f.clone()).unwrap();
    }
    assert_eq!(stage, ReadStage::Done);
    assert_eq!(m.identities().clone(), vec!["client@host".to_string(), "router".to_string()]);
    assert_eq!(m.message_id(), "Connect");
    assert_eq!(m.route_info().unwrap().protocol(), Protocol::JobSrv);
    assert_eq!(m.route_info().unwrap().hash(), Some(7));
    assert_eq!(m.txn().unwrap().id(), 3);
    assert!(!m.txn().unwrap().is_complete());
    assert_eq!(m.body().clone(), sent.body().clone());
    assert_eq!(frames(&m), fs);
}

#[test]
fn body_frame_becomes_the_body() {
    let mut m = Message::default();
    assert_eq!(on_frame(ReadStage::Body, &mut m, vec![9, 8]).unwrap(), ReadStage::Done);
    assert_eq!(m.body().clone(), vec![9, 8]);
    m.set_body_bytes(vec![0, 0, 0]);
    assert_eq!(on_frame(ReadStage::Body, &mut m, vec![1, 2, 3, 4]).unwrap(), ReadStage::Done);
    assert_eq!(m.body().clone(), vec![1, 2, 3, 4]);
    assert!(matches!(on_frame(ReadStage::Body, &mut m, vec![]), Err(ConnErr::NoBody)));
    assert_eq!(m.body().clone(), vec![1, 2, 3, 4]);
}

#[test]
fn transaction_stage_only_when_announced() {
    let mut m = Message::default();
    let h = Header::new(Some("X".to_string()), Some(true), None);
    assert_eq!(on_frame(ReadStage::Header, &mut m, h.to_bytes().unwrap()).unwrap(), ReadStage::RouteInfo);
    let r = RouteInfo::new(Protocol::Net, None).to_bytes().unwrap();
    assert_eq!(on_frame(ReadStage::RouteInfo, &mut m, r).unwrap(), ReadStage::Body);
}

#[test]
fn identity_frame_errors() {
    let mut m = Message::default();
    assert!(matches!(on_frame(ReadStage::Identity { first: true }, &mut m, vec![]), Err(ConnErr::NoIdentity)));
    match on_frame(ReadStage::Identity { first: true }, &mut m, vec![0xff]) {
        Err(ConnErr::BadIdentity(b)) => assert_eq!(b, vec![0xff]),
        other => panic!("unexpected {:?}", other),
    }
    assert!(m.identities().is_empty());
    assert_eq!(on_frame(ReadStage::Identity { first: false }, &mut m, vec![]).unwrap(), ReadStage::Header);
}

#[test]
fn header_frame_errors() {
    let mut m = Message::default();
    assert!(matches!(
        on_frame(ReadStage::Header, &mut m, vec![0x0a]),
        Err(ConnErr::Protocol(ProtocolError::Decode))
    ));
    let h = Header::new(Some("NoRoute".to_string()), None, None);
    assert!(matches!(on_frame(ReadStage::Header, &mut m, h.to_bytes().unwrap()), Err(ConnErr::NoRouteInfo)));
    // the header is kept all the same
    assert_eq!(m.message_id(), "NoRoute");
}

#[test]
fn routing_and_transaction_frame_errors() {
    let mut m = Message::default();
    assert!(matches!(on_frame(ReadStage::RouteInfo, &mut m, vec![]), Err(ConnErr::NoRouteInfo)));
    assert!(matches!(
        on_frame(ReadStage::RouteInfo, &mut m, vec![0x08, 77]),
        Err(ConnErr::Protocol(ProtocolError::Decode))
    ));
    assert!(m.route_info().is_none());
    assert!(matches!(on_frame(ReadStage::Txn, &mut m, vec![]), Err(ConnErr::NoTxn)));
    assert!(matches!(
        on_frame(ReadStage::Txn, &mut m, vec![0x08]),
        Err(ConnErr::Protocol(ProtocolError::Decode))
    ));
    assert!(m.txn().is_none());
    assert_eq!(on_frame(ReadStage::Done, &mut m, vec![1]).unwrap(), ReadStage::Done);
}

#[test]
fn poll_outcomes() {
    assert!(poll_outcome(Ok(0)).is_ok());
    assert!(poll_outcome(Ok(1)).is_ok());
    assert!(matches!(poll_outcome(Err(SocketError::Again)), Err(ConnErr::Timeout)));
    assert!(matches!(
        poll_outcome(Err(SocketError::Interrupted)),
        Err(ConnErr::Shutdown(SocketError::Interrupted))
    ));
    assert!(matches!(
        poll_outcome(Err(SocketError::Terminated)),
        Err(ConnErr::Shutdown(SocketError::Terminated))
    ));
}

#[test]
fn completing_a_transaction() {
    let mut m = sample_message(true);
    assert!(!m.txn().unwrap().is_complete());
    complete_txn(&mut m);
    assert!(m.txn().unwrap().is_complete());
    assert_eq!(m.txn().unwrap().id(), 3);
    let fs = frames(&m);
    assert_eq!(fs[5], vec![0x08, 3, 0x10, 1]);
}
