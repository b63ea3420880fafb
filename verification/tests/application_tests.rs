use hab_builder::application::{
    app_actions, check_worker, dispatcher_address, dispatcher_queue, heartbeat_message, net_ident, proxy_step, record_worker_start,
    recv_result, worker_step, AppAction, ProxyStep, RecvResult, WorkerCheck, WorkerStatus, WorkerStep,
    POLL_TIMEOUT_MS,
};
use hab_builder::bodies::Heartbeat;
use hab_builder::conn::{ConnErr, SocketError};
use hab_builder::message::encode;

#[test]
fn poll_results() {
    assert_eq!(recv_result(Ok(0), true, true), RecvResult::Timeout);
    assert_eq!(recv_result(Ok(2), true, false), RecvResult::OnMessage(true, false));
    assert_eq!(recv_result(Err(SocketError::Again), true, true), RecvResult::Timeout);
    assert_eq!(recv_result(Err(SocketError::Interrupted), false, false), RecvResult::Shutdown);
    assert_eq!(recv_result(Err(SocketError::Terminated), false, false), RecvResult::Shutdown);
    assert_eq!(POLL_TIMEOUT_MS, 30_000);
}

#[test]
fn completed_work_before_new_work() {
    assert_eq!(
        app_actions(RecvResult::OnMessage(true, true)),
        vec![AppAction::ProxyToRouter, AppAction::ProxyToDispatchers]
    );
    assert_eq!(app_actions(RecvResult::OnMessage(true, false)), vec![AppAction::ProxyToDispatchers]);
    assert_eq!(app_actions(RecvResult::OnMessage(false, true)), vec![AppAction::ProxyToRouter]);
    assert_eq!(app_actions(RecvResult::OnMessage(false, false)), Vec::<AppAction>::new());
    assert_eq!(app_actions(RecvResult::Timeout), vec![AppAction::Heartbeat]);
    assert_eq!(app_actions(RecvResult::Shutdown), vec![AppAction::Stop]);
}

#[test]
fn proxy_steps() {
    assert_eq!(proxy_step(Ok(true)), ProxyStep::Send { more: true });
    assert_eq!(proxy_step(Ok(false)), ProxyStep::Send { more: false });
    assert_eq!(proxy_step(Err(SocketError::Again)), ProxyStep::Done);
    assert_eq!(proxy_step(Err(SocketError::Terminated)), ProxyStep::Fail(SocketError::Terminated));
}

#[test]
fn worker_steps() {
    assert!(matches!(worker_step(Ok(())), WorkerStep::Dispatch));
    assert!(matches!(worker_step(Err(ConnErr::Shutdown(SocketError::Terminated))), WorkerStep::Stop));
    assert!(matches!(worker_step(Err(ConnErr::Timeout)), WorkerStep::Skip(ConnErr::Timeout)));
    assert!(matches!(worker_step(Err(ConnErr::NoIdentity)), WorkerStep::Skip(ConnErr::NoIdentity)));
}

#[test]
fn network_identity() {
    assert_eq!(net_ident(4242, "builder-1"), "4242@builder-1");
    assert_eq!(net_ident(0, ""), "0@");
    assert_eq!(net_ident(u32::MAX, "h"), "4294967295@h");
}

#[test]
fn dispatcher_queue_is_a_fresh_inproc_address() {
    let a = dispatcher_queue();
    let b = dispatcher_queue();
    assert!(a.starts_with("inproc://net.dispatcher."));
    let id = &a["inproc://net.dispatcher.".len()..];
    assert_eq!(id.len(), 36);
    for (i, c) in id.chars().enumerate() {
        if i == 8 || i == 13 || i == 18 || i == 23 {
            assert_eq!(c, '-');
        } else {
            assert!(c.is_ascii_digit() || ('a'..='f').contains(&c));
        }
    }
    assert_ne!(a, b);
}

#[test]
fn heartbeat_is_an_empty_message_with_a_heartbeat_body() {
    let m = heartbeat_message();
    assert_eq!(m.body().clone(), encode(&Heartbeat::new()).unwrap());
    assert!(m.identities().is_empty());
    assert!(m.route_info().is_none());
    assert!(m.txn().is_none());
    assert_eq!(m.message_id(), "");
}

#[test]
fn worker_checks() {
    assert_eq!(check_worker(WorkerStatus::Quiet), WorkerCheck::Running);
    assert_eq!(check_worker(WorkerStatus::Sent), WorkerCheck::Unexpected);
    assert_eq!(check_worker(WorkerStatus::Gone), WorkerCheck::Restart);
}

#[test]
fn worker_start_is_recorded_by_position() {
    let mut workers: Vec<&str> = Vec::new();
    record_worker_start(&mut workers, 0, "w0", true);
    record_worker_start(&mut workers, 1, "w1", true);
    assert_eq!(workers, vec!["w0", "w1"]);
    // a restarted worker's channel goes in at its place, before the old one
    record_worker_start(&mut workers, 0, "w0-again", true);
    assert_eq!(workers, vec!["w0-again", "w0", "w1"]);
    // a worker that failed to start takes the channel at its place away
    record_worker_start(&mut workers, 1, "unused", false);
    assert_eq!(workers, vec!["w0-again", "w1"]);
}

#[test]
fn dispatcher_address_of_a_name() {
    assert_eq!(dispatcher_address("abc"), "inproc://net.dispatcher.abc");
    assert_eq!(dispatcher_address(""), "inproc://net.dispatcher.");
}
