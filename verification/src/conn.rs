//! The frames of a routed message on a connection: the frames a message is
//! sent as, and the reading of received frames, one at a time, into a message.
//!
//! A message goes out as its identity frames, an empty delimiter frame, the
//! header, the routing frame, the transaction frame (when the message has a
//! transaction) and the body. Reading goes the other way, frame by frame: the
//! socket I/O stays with the caller, which hands each received frame to
//! [`on_frame`] and acts on the stage it returns.
use vstd::prelude::*;
use vstd::utf8::*;
use crate::message::{
    lemma_wire_roundtrip, message_empty, header_empty, HeaderV, RouteInfoV, WireMessage,
    header_encodable, message_wf, strings_view, wire_decode, wire_encode, Header, Message, MessageV,
    ProtocolError, RouteInfo, Txn, TxnV,
};

verus! {

/// How long a connection waits to receive, in milliseconds.
pub const RECV_TIMEOUT_MS: i32 = 5_000;

/// How long a connection waits to send, in milliseconds.
pub const SEND_TIMEOUT_MS: i32 = 5_000;

/// What a socket call can fail with, as the connection tells the cases apart.
#[derive(PartialEq, Eq, Structural, Clone, Copy, Debug)]
pub enum SocketError {
    /// The call would block, or timed out.
    Again,
    /// The call was interrupted by a signal.
    Interrupted,
    /// The socket's context was terminated.
    Terminated,
    /// The poll items were not valid.
    Fault,
    /// Any other error, by its errno.
    Other(i32),
}

/// What can go wrong on a connection.
#[derive(Debug)]
pub enum ConnErr {
    /// An identity frame is not valid UTF-8; its bytes are kept.
    BadIdentity(Vec<u8>),
    /// The first identity frame is empty: the message carries no identity.
    NoIdentity,
    /// The header does not announce a routing frame, or the routing frame is
    /// empty, or a message to forward has none.
    NoRouteInfo,
    /// The transaction frame announced by the header is empty.
    NoTxn,
    /// The body frame is empty.
    NoBody,
    /// Nothing arrived before the timeout.
    Timeout,
    /// The connection is shutting down.
    Shutdown(SocketError),
    /// A socket call failed.
    Socket(SocketError),
    /// A frame is not a valid protocol message.
    Protocol(ProtocolError),
}

// ---------------------------------------------------------------------------
// Sending
// ---------------------------------------------------------------------------

/// The UTF-8 bytes of each identity.
pub open spec fn identity_frames(ids: Seq<Seq<char>>) -> Seq<Seq<u8>> {
    ids.map_values(|c: Seq<char>| encode_utf8(c))
}

/// The frames a message is sent as: its identities, an empty delimiter, the
/// header, the routing frame, the transaction frame when there is one, and the body.
pub open spec fn message_frames(m: MessageV) -> Seq<Seq<u8>> {
    identity_frames(m.identities) + seq![Seq::<u8>::empty(), wire_encode::<Header>(m.header),
    wire_encode::<RouteInfo>(m.route_info.unwrap())] + match m.txn {
        Some(t) => seq![wire_encode::<Txn>(t)],
        None => Seq::empty(),
    } + seq![m.body]
}

/// The frames of a message, in the order they are sent; every frame but the
/// last is sent with the "more" flag. The message must have a routing frame.
pub fn frames(message: &Message) -> (r: Vec<Vec<u8>>)
    requires
        message@.route_info is Some,
    ensures
        r@.map_values(|f: Vec<u8>| f@) == message_frames(message@),
{
    message.prove_wf();
    let mut out: Vec<Vec<u8>> = Vec::new();
    let ids = message.identities();
    let mut i: usize = 0;
    while i < ids.len()
        invariant
            i <= ids@.len(),
            strings_view(ids@) == message@.identities,
            out@.len() == i,
            forall|j: int| 0 <= j < i ==> (#[trigger] out@[j])@ == encode_utf8(message@.identities[j]),
        decreases ids@.len() - i,
    {
        let bytes = ids[i].as_str().as_bytes();
        let v = vstd::slice::slice_to_vec(bytes);
        proof {
            assert(message@.identities[i as int] == ids@[i as int]@);
        }
        out.push(v);
        i = i + 1;
    }
    assert(out@.map_values(|f: Vec<u8>| f@) =~= identity_frames(message@.identities));
    out.push(Vec::new());
    let h = message.header().to_bytes();
    match h {
        Ok(b) => out.push(b),
        Err(_) => {},
    }
    let r = message.route_info().unwrap().to_bytes();
    match r {
        Ok(b) => out.push(b),
        Err(_) => {},
    }
    match message.txn() {
        Some(t) => {
            let tb = t.to_bytes();
            match tb {
                Ok(b) => out.push(b),
                Err(_) => {},
            }
        },
        None => {},
    }
    out.push(message.body().clone());
    assert(out@.map_values(|f: Vec<u8>| f@) =~= message_frames(message@));
    out
}

/// The message with its transaction marked complete, as `send_complete` sends it.
pub open spec fn completed(m: MessageV) -> MessageV {
    MessageV { txn: Some(TxnV { complete: Some(true), ..m.txn.unwrap() }), ..m }
}

/// Marks the message's transaction complete before it is sent as a final
/// reply; the message must carry a transaction.
pub fn complete_txn(message: &mut Message)
    requires
        old(message)@.txn is Some,
    ensures
        final(message)@ == completed(old(message)@),
        message_wf(final(message)@),
{
    message.prove_wf();
    match message.txn_mut() {
        Some(txn) => txn.set_complete(true),
        None => {},
    }
}

// ---------------------------------------------------------------------------
// Receiving
// ---------------------------------------------------------------------------

/// Where the reading of a message's frames stands.
#[derive(PartialEq, Eq, Structural, Clone, Copy, Debug)]
pub enum ReadStage {
    /// Reading identity frames; `first` until one has been read.
    Identity { first: bool },
    /// The next frame is the header.
    Header,
    /// The next frame is the routing frame.
    RouteInfo,
    /// The next frame is the transaction frame.
    Txn,
    /// The next frame is the body.
    Body,
    /// The message is complete.
    Done,
}

/// The stage after the routing frame: the transaction frame when the header
/// announces one, else the body.
pub open spec fn stage_after_route(m: MessageV) -> ReadStage {
    if m.header.txn is Some {
        ReadStage::Txn
    } else {
        ReadStage::Body
    }
}

/// One received frame applied to the message at a stage: the next stage and
/// the message, or `None` when the frame is refused.
pub open spec fn frame_step(stage: ReadStage, m: MessageV, frame: Seq<u8>) -> Option<(ReadStage, MessageV)> {
    match stage {
        ReadStage::Identity { first } => if frame.len() == 0 {
            if first {
                None
            } else {
                Some((ReadStage::Header, m))
            }
        } else if valid_utf8(frame) {
            Some((
                ReadStage::Identity { first: false },
                MessageV { identities: m.identities.push(decode_utf8(frame)), ..m },
            ))
        } else {
            None
        },
        ReadStage::Header => match wire_decode::<Header>(frame) {
            Some(h) => if h.route_info is Some {
                Some((ReadStage::RouteInfo, MessageV { header: h, ..m }))
            } else {
                None
            },
            None => None,
        },
        ReadStage::RouteInfo => if frame.len() == 0 {
            None
        } else {
            match wire_decode::<RouteInfo>(frame) {
                Some(x) => Some((stage_after_route(m), MessageV { route_info: Some(x), ..m })),
                None => None,
            }
        },
        ReadStage::Txn => if frame.len() == 0 {
            None
        } else {
            match wire_decode::<Txn>(frame) {
                Some(x) => Some((ReadStage::Body, MessageV { txn: Some(x), ..m })),
                None => None,
            }
        },
        ReadStage::Body => if frame.len() == 0 {
            None
        } else {
            Some((ReadStage::Done, MessageV { body: frame, ..m }))
        },
        ReadStage::Done => Some((ReadStage::Done, m)),
    }
}

/// The error a refused frame gives at a stage.
pub open spec fn frame_error(stage: ReadStage, m: MessageV, frame: Seq<u8>, e: ConnErr) -> bool {
    match stage {
        ReadStage::Identity { first } => if frame.len() == 0 {
            e is NoIdentity
        } else {
            e matches ConnErr::BadIdentity(b) && b@ == frame
        },
        ReadStage::Header => if wire_decode::<Header>(frame) is None {
            e matches ConnErr::Protocol(p) && p is Decode
        } else {
            e is NoRouteInfo
        },
        ReadStage::RouteInfo => if frame.len() == 0 {
            e is NoRouteInfo
        } else {
            e matches ConnErr::Protocol(p) && p is Decode
        },
        ReadStage::Txn => if frame.len() == 0 {
            e is NoTxn
        } else {
            e matches ConnErr::Protocol(p) && p is Decode
        },
        ReadStage::Body => e is NoBody,
        ReadStage::Done => false,
    }
}

/// The message after a refused frame at `stage`: a header that decodes is
/// kept even when it announces no routing frame; otherwise the message is as
/// it was.
pub open spec fn after_refused(stage: ReadStage, m: MessageV, frame: Seq<u8>) -> MessageV {
    match stage {
        ReadStage::Header => match wire_decode::<Header>(frame) {
            Some(h) => MessageV { header: h, ..m },
            None => m,
        },
        _ => m,
    }
}

/// Applies one received frame to the message at `stage`: identities until an
/// empty frame (an empty first frame means the message has no identity), then
/// the header (which must announce a routing frame), the routing frame, the
/// transaction frame when the header announces one, and the body, which
/// becomes the message's body and must not be empty. Gives the next stage, or the error for a refused frame, after which the message is
/// as [`after_refused`] states.
pub fn on_frame(stage: ReadStage, message: &mut Message, frame: Vec<u8>) -> (r: Result<ReadStage, ConnErr>)
    ensures
        message_wf(final(message)@),
        match frame_step(stage, old(message)@, frame@) {
            Some((s, m)) => r == Ok::<ReadStage, ConnErr>(s) && final(message)@ == m,
            None => r matches Err(e) && frame_error(stage, old(message)@, frame@, e) && final(message)@
                == after_refused(stage, old(message)@, frame@),
        },
{
    message.prove_wf();
    let ghost fv = frame@;
    match stage {
        ReadStage::Identity { first } => {
            if frame.len() == 0 {
                if first {
                    Err(ConnErr::NoIdentity)
                } else {
                    Ok(ReadStage::Header)
                }
            } else {
                match message.push_identity(frame) {
                    Ok(()) => Ok(ReadStage::Identity { first: false }),
                    Err(ProtocolError::IdentityDecode(b)) => Err(ConnErr::BadIdentity(b)),
                    Err(e) => Err(ConnErr::Protocol(e)),
                }
            }
        },
        ReadStage::Header => {
            match message.set_header(frame.as_slice()) {
                Ok(()) => {},
                Err(e) => return Err(ConnErr::Protocol(e)),
            }
            if !message.header().has_route_info() {
                return Err(ConnErr::NoRouteInfo);
            }
            Ok(ReadStage::RouteInfo)
        },
        ReadStage::RouteInfo => {
            if frame.len() == 0 {
                return Err(ConnErr::NoRouteInfo);
            }
            match message.set_routing(frame.as_slice()) {
                Ok(()) => {},
                Err(e) => return Err(ConnErr::Protocol(e)),
            }
            if message.header().has_txn() {
                Ok(ReadStage::Txn)
            } else {
                Ok(ReadStage::Body)
            }
        },
        ReadStage::Txn => {
            if frame.len() == 0 {
                return Err(ConnErr::NoTxn);
            }
            match message.set_txn(frame.as_slice()) {
                Ok(()) => {},
                Err(e) => return Err(ConnErr::Protocol(e)),
            }
            Ok(ReadStage::Body)
        },
        ReadStage::Body => {
            if frame.len() == 0 {
                return Err(ConnErr::NoBody);
            }
            message.set_body_bytes(frame);
            Ok(ReadStage::Done)
        },
        ReadStage::Done => Ok(ReadStage::Done),
    }
}


/// What a poll result means for a connection waiting to receive: read the
/// message when the poll returns (whatever the count), time out when the
/// call would block, shut down when interrupted or terminated. A negative
/// count, invalid poll items and other errors cannot occur, and are left out.
pub fn poll_outcome(poll: Result<i32, SocketError>) -> (r: Result<(), ConnErr>)
    requires
        match poll {
            Ok(count) => count >= 0,
            Err(e) => e is Again || e is Interrupted || e is Terminated,
        },
    ensures
        match poll {
            Ok(_) => r is Ok,
            Err(SocketError::Again) => r matches Err(ConnErr::Timeout),
            Err(e) => r matches Err(ConnErr::Shutdown(x)) && x == e,
        },
{
    match poll {
        Ok(_) => Ok(()),
        Err(SocketError::Again) => Err(ConnErr::Timeout),
        Err(e) => Err(ConnErr::Shutdown(e)),
    }
}


// ---------------------------------------------------------------------------
// What is read back of what is sent
// ---------------------------------------------------------------------------

/// Frames applied one after another from `stage` and `m`: the stage and
/// message they lead to, or `None` when one is refused.
pub open spec fn read_frames(stage: ReadStage, m: MessageV, fs: Seq<Seq<u8>>) -> Option<(ReadStage, MessageV)>
    decreases fs.len(),
{
    if fs.len() == 0 {
        Some((stage, m))
    } else {
        match frame_step(stage, m, fs[0]) {
            Some((s2, m2)) => read_frames(s2, m2, fs.drop_first()),
            None => None,
        }
    }
}

proof fn lemma_read_frames_concat(stage: ReadStage, m: MessageV, a: Seq<Seq<u8>>, b: Seq<Seq<u8>>)
    ensures
        read_frames(stage, m, a + b) == match read_frames(stage, m, a) {
            Some((s2, m2)) => read_frames(s2, m2, b),
            None => None,
        },
    decreases a.len(),
{
    if a.len() == 0 {
        assert(a + b =~= b);
    } else {
        assert((a + b)[0] == a[0]);
        assert((a + b).drop_first() =~= a.drop_first() + b);
        if let Some((s2, m2)) = frame_step(stage, m, a[0]) {
            lemma_read_frames_concat(s2, m2, a.drop_first(), b);
        }
    }
}

proof fn lemma_read_identities(ids: Seq<Seq<char>>, k: int, m: MessageV)
    requires
        0 < k <= ids.len(),
        forall|i: int| 0 <= i < ids.len() ==> (#[trigger] ids[i]).len() > 0,
        m.identities == ids.take(k),
    ensures
        read_frames(ReadStage::Identity { first: false }, m, identity_frames(ids).skip(k)) == Some((
            ReadStage::Identity { first: false },
            MessageV { identities: ids, ..m },
        )),
    decreases ids.len() - k,
{
    broadcast use encode_utf8_valid_utf8, encode_utf8_decode_utf8;

    let fs = identity_frames(ids).skip(k);
    if k == ids.len() {
        assert(fs.len() == 0);
        assert(ids.take(k) =~= ids);
    } else {
        let f = encode_utf8(ids[k]);
        assert(fs[0] == f);
        assert(f.len() > 0) by {
            assert(decode_utf8(f) == ids[k]);
            if f.len() == 0 {
                assert(decode_utf8(f) =~= Seq::<char>::empty());
            }
        }
        let m2 = MessageV { identities: m.identities.push(ids[k]), ..m };
        assert(ids.take(k + 1) =~= ids.take(k).push(ids[k]));
        assert(fs.drop_first() =~= identity_frames(ids).skip(k + 1));
        lemma_read_identities(ids, k + 1, m2);
    }
}

proof fn lemma_read_all_identities(ids: Seq<Seq<char>>, e: MessageV)
    requires
        ids.len() > 0,
        forall|i: int| 0 <= i < ids.len() ==> (#[trigger] ids[i]).len() > 0,
        e.identities.len() == 0,
    ensures
        read_frames(ReadStage::Identity { first: true }, e, identity_frames(ids)) == Some((
            ReadStage::Identity { first: false },
            MessageV { identities: ids, ..e },
        )),
{
    broadcast use encode_utf8_valid_utf8, encode_utf8_decode_utf8;

    let idf = identity_frames(ids);
    let f0 = encode_utf8(ids[0]);
    assert(ids[0].len() > 0);
    assert(f0.len() > 0) by {
        if f0.len() == 0 {
            assert(decode_utf8(f0) =~= Seq::<char>::empty());
        }
    }
    let m1 = MessageV { identities: seq![ids[0]], ..e };
    assert(e.identities.push(decode_utf8(f0)) =~= seq![ids[0]]);
    assert(idf[0] == f0);
    assert(frame_step(ReadStage::Identity { first: true }, e, f0) == Some((ReadStage::Identity { first: false }, m1)));
    assert(ids.take(1) =~= seq![ids[0]]);
    assert(idf.drop_first() =~= idf.skip(1));
    lemma_read_identities(ids, 1, m1);
}

proof fn lemma_read_rest(m: MessageV, mi: MessageV)
    requires
        message_wf(m),
        m.route_info is Some,
        wire_encode::<RouteInfo>(m.route_info.unwrap()).len() > 0,
        m.header.route_info is Some,
        (m.header.txn is Some) == (m.txn is Some),
        m.txn matches Some(t) ==> wire_encode::<Txn>(t).len() > 0,
        mi == (MessageV { identities: m.identities, ..message_empty() }),
    ensures
        read_frames(
            ReadStage::Identity { first: false },
            mi,
            seq![Seq::<u8>::empty(), wire_encode::<Header>(m.header), wire_encode::<RouteInfo>(m.route_info.unwrap())]
                + match m.txn {
                Some(t) => seq![wire_encode::<Txn>(t)],
                None => Seq::empty(),
            },
        ) == Some((ReadStage::Body, MessageV { body: Seq::empty(), ..m })),
{
    let hb = wire_encode::<Header>(m.header);
    let rb = wire_encode::<RouteInfo>(m.route_info.unwrap());
    let tf: Seq<Seq<u8>> = match m.txn {
        Some(t) => seq![wire_encode::<Txn>(t)],
        None => Seq::empty(),
    };
    let rest = seq![Seq::<u8>::empty(), hb, rb] + tf;
    let mh = MessageV { header: m.header, ..mi };
    let mr = MessageV { route_info: m.route_info, ..mh };
    lemma_read_tail(m, mr, tf);
    let r3 = seq![rb] + tf;
    assert(r3[0] == rb);
    assert(r3.drop_first() =~= tf);
    lemma_step_route_info(mh, m.route_info.unwrap());
    lemma_read_frames_cons(ReadStage::RouteInfo, mh, r3);
    let r2 = seq![hb, rb] + tf;
    assert(r2[0] == hb);
    assert(r2.drop_first() =~= r3);
    lemma_step_header(mi, m.header);
    lemma_read_frames_cons(ReadStage::Header, mi, r2);
    assert(rest[0] == Seq::<u8>::empty());
    assert(rest.drop_first() =~= r2);
    assert(frame_step(ReadStage::Identity { first: false }, mi, Seq::empty()) == Some((ReadStage::Header, mi)));
    lemma_read_frames_cons(ReadStage::Identity { first: false }, mi, rest);
}

proof fn lemma_step_txn(m: MessageV, t: TxnV)
    requires
        Txn::encodable(t),
        wire_encode::<Txn>(t).len() > 0,
    ensures
        frame_step(ReadStage::Txn, m, wire_encode::<Txn>(t)) == Some((ReadStage::Body, MessageV { txn: Some(t), ..m })),
{
    lemma_wire_roundtrip::<Txn>(t);
}

proof fn lemma_read_frames_cons(stage: ReadStage, m: MessageV, fs: Seq<Seq<u8>>)
    requires
        fs.len() > 0,
    ensures
        read_frames(stage, m, fs) == match frame_step(stage, m, fs[0]) {
            Some((s2, m2)) => read_frames(s2, m2, fs.drop_first()),
            None => None,
        },
{
}

proof fn lemma_step_header(m: MessageV, h: HeaderV)
    requires
        header_encodable(h),
        h.route_info is Some,
    ensures
        frame_step(ReadStage::Header, m, wire_encode::<Header>(h)) == Some((ReadStage::RouteInfo, MessageV { header: h, ..m })),
{
    lemma_wire_roundtrip::<Header>(h);
}

proof fn lemma_step_route_info(m: MessageV, r: RouteInfoV)
    requires
        RouteInfo::encodable(r),
        wire_encode::<RouteInfo>(r).len() > 0,
    ensures
        frame_step(ReadStage::RouteInfo, m, wire_encode::<RouteInfo>(r)) == Some((
            stage_after_route(m),
            MessageV { route_info: Some(r), ..m },
        )),
{
    lemma_wire_roundtrip::<RouteInfo>(r);
}

proof fn lemma_read_tail(m: MessageV, mr: MessageV, tf: Seq<Seq<u8>>)
    requires
        message_wf(m),
        (m.header.txn is Some) == (m.txn is Some),
        m.txn matches Some(t) ==> wire_encode::<Txn>(t).len() > 0,
        mr == (MessageV { txn: None, body: Seq::empty(), ..m }),
        tf == match m.txn {
            Some(t) => seq![wire_encode::<Txn>(t)],
            None => Seq::<Seq<u8>>::empty(),
        },
    ensures
        read_frames(stage_after_route(mr), mr, tf) == Some((ReadStage::Body, MessageV { body: Seq::empty(), ..m })),
{
    match m.txn {
        Some(t) => {
            let mt = MessageV { txn: Some(t), ..mr };
            assert(tf[0] == wire_encode::<Txn>(t));
            lemma_step_txn(mr, t);
            lemma_read_frames_cons(ReadStage::Txn, mr, tf);
            assert(tf.drop_first() =~= Seq::<Seq<u8>>::empty());
            assert(read_frames(ReadStage::Body, mt, tf.drop_first()) == Some((ReadStage::Body, mt)));
            assert(mt == MessageV { body: Seq::empty(), ..m });
        },
        None => {
            assert(tf =~= Seq::<Seq<u8>>::empty());
            assert(mr == MessageV { body: Seq::empty(), ..m });
        },
    }
}

/// What is sent is read back: the frames a message is sent as, read one by
/// one into an empty message, rebuild the message (its identities, header,
/// routing frame, transaction and body) and complete the reading. This holds
/// of a message with at least one identity, no empty identity, a header that
/// announces a routing frame and (exactly when the message has one) a
/// transaction frame, routing and transaction frames that are not empty, and
/// a body that is not empty.
pub proof fn lemma_frames_read_back(m: MessageV)
    requires
        message_wf(m),
        m.identities.len() > 0,
        forall|i: int| 0 <= i < m.identities.len() ==> (#[trigger] m.identities[i]).len() > 0,
        m.route_info is Some,
        wire_encode::<RouteInfo>(m.route_info.unwrap()).len() > 0,
        m.header.route_info is Some,
        (m.header.txn is Some) == (m.txn is Some),
        m.txn matches Some(t) ==> wire_encode::<Txn>(t).len() > 0,
        m.body.len() > 0,
    ensures
        read_frames(ReadStage::Identity { first: true }, message_empty(), message_frames(m))
            == Some((ReadStage::Done, m)),
{
    let e = message_empty();
    let idf = identity_frames(m.identities);
    let rest = seq![Seq::<u8>::empty(), wire_encode::<Header>(m.header), wire_encode::<RouteInfo>(m.route_info.unwrap())]
        + match m.txn {
        Some(t) => seq![wire_encode::<Txn>(t)],
        None => Seq::empty(),
    };
    let all = message_frames(m);
    assert(all.drop_last() =~= idf + rest);
    lemma_read_all_identities(m.identities, e);
    lemma_read_frames_concat(ReadStage::Identity { first: true }, e, idf, rest);
    lemma_read_rest(m, MessageV { identities: m.identities, ..e });
    let mb = MessageV { body: Seq::empty(), ..m };
    assert(all =~= all.drop_last() + seq![m.body]);
    lemma_read_frames_concat(ReadStage::Identity { first: true }, e, all.drop_last(), seq![m.body]);
    assert(frame_step(ReadStage::Body, mb, m.body) == Some((ReadStage::Done, m)));
    lemma_read_frames_cons(ReadStage::Body, mb, seq![m.body]);
    assert(seq![m.body].drop_first() =~= Seq::<Seq<u8>>::empty());
}


/// The shape of what is sent: a message goes out as one frame per identity
/// (its UTF-8 bytes), the empty delimiter, the header, the routing frame, the
/// transaction frame when it has one, and always the body frame last, even
/// when the body is empty.
pub proof fn law_frames_shape(m: MessageV)
    ensures
        message_frames(m).len() == m.identities.len() + 4 + (if m.txn is Some {
            1int
        } else {
            0int
        }),
        forall|i: int| 0 <= i < m.identities.len() ==> #[trigger] message_frames(m)[i] == encode_utf8(m.identities[i]),
        message_frames(m)[m.identities.len() as int] == Seq::<u8>::empty(),
        message_frames(m)[m.identities.len() + 1int] == wire_encode::<Header>(m.header),
        message_frames(m)[m.identities.len() + 2int] == wire_encode::<RouteInfo>(m.route_info.unwrap()),
        m.txn matches Some(t) ==> message_frames(m)[m.identities.len() + 3int] == wire_encode::<Txn>(t),
        message_frames(m).last() == m.body,
{
    let n = m.identities.len();
    let f = message_frames(m);
    assert forall|i: int| 0 <= i < n implies #[trigger] f[i] == encode_utf8(m.identities[i]) by {
        assert(identity_frames(m.identities)[i] == encode_utf8(m.identities[i]));
    }
}

} // verus!
