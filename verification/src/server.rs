//! What the router does with a message it receives: it handles the messages
//! addressed to the router itself (registrations, disconnections and
//! heartbeats of servers), and forwards the others to the server that hosts
//! the shard they belong to. The socket I/O stays with the caller, which
//! performs the [`RouteAction`] returned.
use vstd::prelude::*;
use vstd::utf8::*;
use crate::bodies::{err, Connect, NetError, NetErrorV, NetOk, UnknownOnlyV};
use crate::conn::ConnErr;
use crate::message::{
    message_id_of, message_wf, protocol_number, wire_decode, wire_encode, ErrCode, Message, MessageV,
    Protocol, ProtocolError, RouteInfoV,
};
use crate::router::{
    assign_shards, has_conflict, reg_at, regs_of, renewed_map, without_endpoint, ServerMap, ServerRegV,
};
use crate::routing::{str_equal, SHARD_COUNT};

verus! {

/// `rand::random::<u64>()`: a number from the thread's random generator.
/// Nothing is known of it.
#[verifier::external_body]
fn random_u64() -> u64 {
    rand::random::<u64>()
}

/// The protocol a message is routed under: that of its routing frame (the
/// first protocol, `Net`, when the frame leaves it unset).
pub open spec fn route_protocol(m: MessageV) -> Protocol {
    match m.route_info.unwrap().protocol {
        Some(p) => p,
        None => Protocol::Net,
    }
}

/// The endpoint registered for `shard` under `p`, if any.
pub open spec fn endpoint_for(servers: Map<i32, Map<u32, ServerRegV>>, p: Protocol, shard: u32) -> Option<Seq<char>> {
    let q = protocol_number(p);
    if servers.contains_key(q) && servers[q].contains_key(shard) {
        Some(servers[q][shard].endpoint)
    } else {
        None
    }
}

/// The shard a routing hash picks.
pub open spec fn shard_of_hash(h: u64) -> u32 {
    (h % (SHARD_COUNT as u64)) as u32
}

/// Whether no shard of protocol `p` is registered.
pub open spec fn no_shards(servers: Map<i32, Map<u32, ServerRegV>>, p: Protocol) -> bool {
    regs_of(servers, protocol_number(p)).dom() == Set::<u32>::empty()
}

/// Picks the server to forward a message to. With a routing hash: the one
/// registered for the message's protocol and for the shard that the hash
/// picks (the hash modulo the shard count), `None` when no server holds that
/// shard. Without one: a server holding one of the protocol's registered
/// shards, picked at random; `None` only when no shard of the protocol is
/// registered.
pub fn select_shard<'a>(servers: &'a ServerMap, message: &Message) -> (r: Option<&'a str>)
    requires
        message@.route_info is Some,
    ensures
        match message@.route_info.unwrap().hash {
            Some(h) => match r {
                Some(e) => endpoint_for(servers@, route_protocol(message@), shard_of_hash(h)) == Some(e@),
                None => endpoint_for(servers@, route_protocol(message@), shard_of_hash(h)) is None,
            },
            None => match r {
                Some(e) => exists|shard: u32| #[trigger]
                    endpoint_for(servers@, route_protocol(message@), shard) == Some(e@),
                None => no_shards(servers@, route_protocol(message@)),
            },
        },
{
    let info = message.route_info().unwrap();
    let protocol = info.protocol();
    let shard_id: u32 = match info.hash() {
        Some(hash) => (hash % (SHARD_COUNT as u64)) as u32,
        None => {
            let held = servers.shards(&protocol);
            if held.len() == 0 {
                proof {
                    assert(held@.to_set() =~= Set::<u32>::empty());
                }
                return None;
            }
            let k = (random_u64() % (held.len() as u64)) as usize;
            proof {
                assert(held@.to_set().contains(held@[k as int]));
            }
            held[k]
        },
    };
    let r = match servers.get(&protocol, &shard_id) {
        Some(reg) => Some(reg.endpoint.as_str()),
        None => None,
    };
    proof {
        assert(match r {
            Some(e) => endpoint_for(servers@, route_protocol(message@), shard_id) == Some(e@),
            None => endpoint_for(servers@, route_protocol(message@), shard_id) is None,
        });
    }
    r
}

/// Prepares a message for forwarding to `destination`: the destination goes
/// after the message's identities. Refused when the message has no routing
/// frame, or when the destination is not valid UTF-8; then nothing changes.
pub fn forward(message: &mut Message, destination: Vec<u8>) -> (r: Result<(), ConnErr>)
    ensures
        match r {
            Ok(()) => old(message)@.route_info is Some && valid_utf8(destination@) && final(message)@ == (
            MessageV { identities: old(message)@.identities.push(decode_utf8(destination@)), ..old(message)@ }),
            Err(e) => final(message)@ == old(message)@ && if old(message)@.route_info is None {
                e is NoRouteInfo
            } else {
                !valid_utf8(destination@) && (e matches ConnErr::Protocol(p) && p is IdentityDecode)
            },
        },
{
    if message.route_info().is_none() {
        return Err(ConnErr::NoRouteInfo);
    }
    match message.push_identity(destination) {
        Ok(()) => Ok(()),
        Err(e) => Err(ConnErr::Protocol(e)),
    }
}

/// The UTF-8 bytes of a short ASCII literal fit in 32 bits.
proof fn lemma_ascii_len(s: Seq<char>)
    requires
        is_ascii_chars(s),
        s.len() < 0x1_0000_0000,
    ensures
        encode_utf8(s).len() < 0x1_0000_0000,
{
    is_ascii_chars_encode_utf8(s);
}

/// The reply to a registration: success, or the conflict error.
pub open spec fn connect_reply(accepted: bool) -> Seq<u8> {
    if accepted {
        wire_encode::<NetOk>(UnknownOnlyV { unknown: Seq::empty() })
    } else {
        wire_encode::<NetError>(
            NetErrorV { code: Some(ErrCode::REG_CONFLICT), msg: Some("rt:connect:1"@), unknown: Seq::empty() },
        )
    }
}

/// Handles a server's registration: the sender registers for the shards its
/// `Connect` body lists, under the message's protocol, and the body becomes
/// the reply to send back: success, or the conflict error when another
/// server holds one of the shards. Refused, changing nothing, when the
/// message has no sender or its body is not a `Connect`.
pub fn on_connect(message: &mut Message, servers: &mut ServerMap) -> (r: Result<(), ProtocolError>)
    requires
        old(message)@.route_info is Some,
    ensures
        message_wf(final(message)@),
        match r {
            Ok(()) => connect_done(old(message)@, old(servers)@, final(message)@, final(servers)@),
            Err(e) => final(servers)@ == old(servers)@ && final(message)@ == old(message)@ && connect_refused(
                old(message)@,
                e,
            ),
        },
{
    message.prove_wf();
    let protocol = message.route_info().unwrap().protocol();
    let sender = match message.sender() {
        Ok(s) => s.to_owned(),
        Err(e) => return Err(e),
    };
    let mut connect = match message.parse::<Connect>() {
        Ok(c) => c,
        Err(e) => return Err(e),
    };
    let shards = connect.take_shards();
    if servers.add(protocol, sender, shards) {
        let ok = NetOk::new();
        message.set_body(&ok)?;
    } else {
        let e = err(ErrCode::REG_CONFLICT, "rt:connect:1");
        proof {
            reveal_strlit("rt:connect:1");
            lemma_ascii_len("rt:connect:1"@);
        }
        message.set_body(&e)?;
    }
    Ok(())
}

/// Handles a server's disconnection: every registration of the sender under
/// the message's protocol is dropped. Refused, changing nothing, when the
/// message has no sender.
pub fn on_disconnect(message: &mut Message, servers: &mut ServerMap) -> (r: Result<(), ProtocolError>)
    requires
        old(message)@.route_info is Some,
    ensures
        final(message)@ == old(message)@,
        match r {
            Ok(()) => old(message)@.identities.len() > 0 && ({
                let p = protocol_number(route_protocol(old(message)@));
                final(servers)@ == if old(servers)@.contains_key(p) {
                    old(servers)@.insert(p, without_endpoint(old(servers)@[p], old(message)@.identities[0]))
                } else {
                    old(servers)@
                }
            }),
            Err(e) => old(message)@.identities.len() == 0 && e is MsgNotInitialized && final(servers)@
                == old(servers)@,
        },
{
    let protocol = message.route_info().unwrap().protocol();
    let sender = message.sender()?;
    servers.drop(&protocol, sender);
    Ok(())
}

/// Handles a server's heartbeat: every registration of the sender, in every
/// protocol, is renewed. Refused, changing nothing, when the message has no sender.
pub fn on_heartbeat(message: &mut Message, servers: &mut ServerMap) -> (r: Result<(), ProtocolError>)
    ensures
        final(message)@ == old(message)@,
        match r {
            Ok(()) => old(message)@.identities.len() > 0 && renewed_map(
                old(servers)@,
                final(servers)@,
                old(message)@.identities[0],
            ),
            Err(e) => old(message)@.identities.len() == 0 && e is MsgNotInitialized && final(servers)@
                == old(servers)@,
        },
{
    let sender = message.sender()?;
    servers.renew(sender);
    Ok(())
}


/// The message ids of the messages addressed to the router itself.
pub open spec fn is_connect(m: MessageV) -> bool {
    message_id_of(m) == "Connect"@
}

pub open spec fn is_disconnect(m: MessageV) -> bool {
    message_id_of(m) == "Disconnect"@
}

pub open spec fn is_heartbeat(m: MessageV) -> bool {
    message_id_of(m) == "Heartbeat"@
}

/// What handling a message addressed to the router does, by its message id:
/// a registration, a disconnection or a heartbeat as their handlers state
/// (`Ok(true)` when a reply is to be sent back); any other id is ignored.
pub open spec fn handled(
    m: MessageV,
    s: Map<i32, Map<u32, ServerRegV>>,
    m2: MessageV,
    s2: Map<i32, Map<u32, ServerRegV>>,
    r: Result<bool, ProtocolError>,
) -> bool {
    if is_connect(m) {
        match r {
            Ok(b) => b && connect_done(m, s, m2, s2),
            Err(e) => s2 == s && m2 == m && connect_refused(m, e),
        }
    } else if is_disconnect(m) {
        m2 == m && match r {
            Ok(b) => !b && m.identities.len() > 0 && ({
                let p = protocol_number(route_protocol(m));
                s2 == if s.contains_key(p) {
                    s.insert(p, without_endpoint(s[p], m.identities[0]))
                } else {
                    s
                }
            }),
            Err(e) => m.identities.len() == 0 && e is MsgNotInitialized && s2 == s,
        }
    } else if is_heartbeat(m) {
        m2 == m && match r {
            Ok(b) => !b && m.identities.len() > 0 && renewed_map(s, s2, m.identities[0]),
            Err(e) => m.identities.len() == 0 && e is MsgNotInitialized && s2 == s,
        }
    } else {
        r == Ok::<bool, ProtocolError>(false) && m2 == m && s2 == s
    }
}

/// A registration that was handled: the sender registered for the shards of
/// the `Connect` body when none is held by another server, and the body
/// replaced by the reply.
pub open spec fn connect_done(
    m: MessageV,
    s: Map<i32, Map<u32, ServerRegV>>,
    m2: MessageV,
    s2: Map<i32, Map<u32, ServerRegV>>,
) -> bool {
    m.identities.len() > 0 && wire_decode::<Connect>(m.body) is Some && ({
        let p = protocol_number(route_protocol(m));
        let sender = m.identities[0];
        let shards = wire_decode::<Connect>(m.body).unwrap().shards;
        let accepted = !has_conflict(regs_of(s, p), sender, shards);
        &&& (accepted ==> exists|now: i64|
            s2 == s.insert(p, #[trigger] assign_shards(regs_of(s, p), shards, reg_at(sender, now))))
        &&& (!accepted ==> s2 == s)
        &&& m2 == (MessageV { body: connect_reply(accepted), ..m })
    })
}

/// Why a registration is refused: no sender, or a body that is no `Connect`.
pub open spec fn connect_refused(m: MessageV, e: ProtocolError) -> bool {
    if m.identities.len() == 0 {
        e is MsgNotInitialized
    } else {
        e is Decode && wire_decode::<Connect>(m.body) is None
    }
}

/// Handles a message addressed to the router, by its message id:
/// `Connect`, `Disconnect` and `Heartbeat`; any other id is ignored. A
/// registration or a disconnection must carry a routing frame, whose
/// protocol it applies to.
/// `Ok(true)` when the message now holds a reply to send back.
pub fn handle_message(servers: &mut ServerMap, message: &mut Message) -> (r: Result<bool, ProtocolError>)
    requires
        is_connect(old(message)@) || is_disconnect(old(message)@) ==> old(message)@.route_info is Some,
    ensures
        message_wf(final(message)@),
        handled(old(message)@, old(servers)@, final(message)@, final(servers)@, r),
{
    message.prove_wf();
    let is_conn;
    let is_disc;
    let is_beat;
    {
        let id = message.message_id();
        proof {
            reveal_strlit("Connect");
            reveal_strlit("Disconnect");
            reveal_strlit("Heartbeat");
        }
        is_conn = str_equal(id, "Connect");
        is_disc = str_equal(id, "Disconnect");
        is_beat = str_equal(id, "Heartbeat");
    }
    if is_conn {
        match on_connect(message, servers) {
            Ok(()) => Ok(true),
            Err(e) => Err(e),
        }
    } else if is_disc {
        match on_disconnect(message, servers) {
            Ok(()) => Ok(false),
            Err(e) => Err(e),
        }
    } else if is_beat {
        match on_heartbeat(message, servers) {
            Ok(()) => Ok(false),
            Err(e) => Err(e),
        }
    } else {
        Ok(false)
    }
}

/// What the caller is to do with a message after routing it.
#[derive(Debug)]
pub enum RouteAction {
    /// Nothing: the message was handled and needs no reply.
    Drop,
    /// Send the message back: it now holds the router's reply.
    Reply,
    /// Handling the message failed; log the error.
    HandlerFailed(ProtocolError),
    /// Send the message on: its last identity is the server to forward it to.
    Forward,
    /// Preparing the message for forwarding failed; log the error.
    ForwardFailed(ConnErr),
    /// No server holds the message's shard: send the message back as a
    /// complete transaction; its body now holds the error.
    NoShard,
    /// The message belongs to no service that can be routed to; log it.
    Unroutable,
}

/// The body of the reply when no server holds a message's shard.
pub open spec fn no_shard_reply() -> Seq<u8> {
    wire_encode::<NetError>(
        NetErrorV { code: Some(ErrCode::NO_SHARD), msg: Some("rt:route:1"@), unknown: Seq::empty() },
    )
}

/// Routing a message to a server: forwarded to the server registered for
/// `shard` (which goes after the message's identities), or, when none is,
/// answered with the no-shard error. The registry does not change.
pub open spec fn routed_to_shard(m: MessageV, s: Map<i32, Map<u32, ServerRegV>>, m2: MessageV, shard: u32, r: RouteAction) -> bool {
    match endpoint_for(s, route_protocol(m), shard) {
        Some(e) => r is Forward && m2 == (MessageV { identities: m.identities.push(e), ..m }),
        None => r is NoShard && m2 == (MessageV { body: no_shard_reply(), ..m }),
    }
}

/// Routes a message: one addressed to the router itself is handled; one of
/// the `Net` protocol is not routable; any other goes to the server that
/// holds its shard: the shard its routing hash picks, or, without a hash, one
/// of the protocol's registered shards picked at random (answered with the
/// no-shard error only when the protocol has none).
pub fn route_message(servers: &mut ServerMap, message: &mut Message) -> (r: RouteAction)
    requires
        old(message)@.route_info is Some,
    ensures
        message_wf(final(message)@),
        match route_protocol(old(message)@) {
            Protocol::RouteSrv => exists|h: Result<bool, ProtocolError>|
                #[trigger] handled(old(message)@, old(servers)@, final(message)@, final(servers)@, h) && match h {
                    Ok(true) => r is Reply,
                    Ok(false) => r is Drop,
                    Err(e) => r == RouteAction::HandlerFailed(e),
                },
            Protocol::Net => r is Unroutable && final(message)@ == old(message)@ && final(servers)@ == old(
                servers,
            )@,
            _ => final(servers)@ == old(servers)@ && match old(message)@.route_info.unwrap().hash {
                Some(h) => routed_to_shard(old(message)@, old(servers)@, final(message)@, shard_of_hash(h), r),
                None => exists|shard: u32|
                    #[trigger] routed_to_shard(old(message)@, old(servers)@, final(message)@, shard, r) && (
                    regs_of(old(servers)@, protocol_number(route_protocol(old(message)@))).contains_key(shard)
                        || no_shards(old(servers)@, route_protocol(old(message)@))),
            },
        },
{
    message.prove_wf();
    let protocol = message.route_info().unwrap().protocol();
    match protocol {
        Protocol::RouteSrv => {
            let h = handle_message(servers, message);
            let ghost hv = h;
            let action = match h {
                Ok(true) => RouteAction::Reply,
                Ok(false) => RouteAction::Drop,
                Err(e) => RouteAction::HandlerFailed(e),
            };
            assert(handled(old(message)@, old(servers)@, message@, servers@, hv));
            assert(match hv {
                Ok(true) => action is Reply,
                Ok(false) => action is Drop,
                Err(e) => action == RouteAction::HandlerFailed(e),
            });
            action
        },
        Protocol::Net => RouteAction::Unroutable,
        _ => {
            let ghost m0 = message@;
            let ghost s0 = servers@;
            let sel = select_shard(servers, message);
            let ghost selv: Option<Seq<char>> = match sel {
                Some(e) => Some(e@),
                None => None,
            };
            let ghost shard: u32 = match m0.route_info.unwrap().hash {
                Some(h) => shard_of_hash(h),
                None => match sel {
                    Some(e) => choose|shard: u32| #[trigger] endpoint_for(s0, route_protocol(m0), shard) == Some(e@),
                    None => 0u32,
                },
            };
            assert(endpoint_for(s0, route_protocol(m0), shard) == selv);
            assert(m0.route_info.unwrap().hash is None ==> (regs_of(
                s0,
                protocol_number(route_protocol(m0)),
            ).contains_key(shard) || no_shards(s0, route_protocol(m0))));
            let target = match sel {
                Some(identity) => {
                    let bytes = identity.as_bytes();
                    Some(vstd::slice::slice_to_vec(bytes))
                },
                None => None,
            };
            let action = match target {
                Some(dest) => {
                    proof {
                        broadcast use encode_utf8_valid_utf8, encode_utf8_decode_utf8;

                    }
                    let res = forward(message, dest);
                    match res {
                        Ok(()) => RouteAction::Forward,
                        Err(e) => RouteAction::ForwardFailed(e),
                    }
                },
                None => {
                    let body = err(ErrCode::NO_SHARD, "rt:route:1");
                    proof {
                        reveal_strlit("rt:route:1");
                        lemma_ascii_len("rt:route:1"@);
                    }
                    match message.set_body(&body) {
                        Ok(()) => {},
                        Err(_) => {},
                    }
                    RouteAction::NoShard
                },
            };
            assert(routed_to_shard(m0, s0, message@, shard, action));
            action
        },
    }
}


// ---------------------------------------------------------------------------
// Laws of routing
// ---------------------------------------------------------------------------

/// Once a server's registration for some shards of a protocol is accepted, a
/// message of that protocol routed to one of those shards is forwarded to
/// that server: its identity goes after the message's identities.
pub proof fn law_registered_server_receives(
    s: Map<i32, Map<u32, ServerRegV>>,
    netid: Seq<char>,
    shards: Seq<u32>,
    now: i64,
    shard: u32,
    m: MessageV,
    m2: MessageV,
    r: RouteAction,
)
    requires
        m.route_info is Some,
        shards.contains(shard),
        routed_to_shard(
            m,
            s.insert(
                protocol_number(route_protocol(m)),
                assign_shards(regs_of(s, protocol_number(route_protocol(m))), shards, reg_at(netid, now)),
            ),
            m2,
            shard,
            r,
        ),
    ensures
        r is Forward,
        m2 == (MessageV { identities: m.identities.push(netid), ..m }),
{
}

/// Once a server is dropped from a protocol, a message of that protocol
/// routed to a shard it held is answered with the no-shard error.
pub proof fn law_dropped_server_receives_nothing(
    s: Map<i32, Map<u32, ServerRegV>>,
    netid: Seq<char>,
    shard: u32,
    m: MessageV,
    m2: MessageV,
    r: RouteAction,
)
    requires
        m.route_info is Some,
        s.contains_key(protocol_number(route_protocol(m))),
        s[protocol_number(route_protocol(m))].contains_key(shard),
        s[protocol_number(route_protocol(m))][shard].endpoint == netid,
        routed_to_shard(
            m,
            s.insert(
                protocol_number(route_protocol(m)),
                without_endpoint(s[protocol_number(route_protocol(m))], netid),
            ),
            m2,
            shard,
            r,
        ),
    ensures
        r is NoShard,
        m2 == (MessageV { body: no_shard_reply(), ..m }),
{
}

/// What the router's loop does after waiting for a message.
#[derive(Debug)]
pub enum ServerStep {
    /// Route the message received.
    Route,
    /// Leave the loop: the router is shutting down.
    Stop,
    /// Leave the loop with the socket error.
    Fail(ConnErr),
    /// Wait again: nothing arrived.
    Wait,
    /// Log the error and wait for the next message.
    Skip(ConnErr),
}

/// What the router's loop does with the result of waiting for a message:
/// route it; stop on a shutdown; fail on a socket error; wait again on a
/// timeout; log any other error and go on.
pub fn server_step(recv: Result<(), ConnErr>) -> (r: ServerStep)
    ensures
        match recv {
            Ok(()) => r is Route,
            Err(ConnErr::Shutdown(_)) => r is Stop,
            Err(ConnErr::Socket(s)) => r == ServerStep::Fail(ConnErr::Socket(s)),
            Err(ConnErr::Timeout) => r is Wait,
            Err(e) => r == ServerStep::Skip(e),
        },
{
    match recv {
        Ok(()) => ServerStep::Route,
        Err(ConnErr::Shutdown(_)) => ServerStep::Stop,
        Err(ConnErr::Socket(s)) => ServerStep::Fail(ConnErr::Socket(s)),
        Err(ConnErr::Timeout) => ServerStep::Wait,
        Err(e) => ServerStep::Skip(e),
    }
}

/// How long the router waits for a message, in milliseconds.
pub fn wait_timeout() -> (r: i64)
    ensures
        r == 30_000,
{
    30_000
}


/// A routing hash picks the shard it leaves modulo the shard count: every
/// hash picks one of the shards, and the shard is the hash's remainder by 128.
pub proof fn law_shard_of_hash(h: u64)
    ensures
        shard_of_hash(h) as int == (h as int) % 128,
        shard_of_hash(h) < SHARD_COUNT,
{
}

} // verus!
