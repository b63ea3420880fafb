//! Route keys: how a message names the shard it should be routed to, and the
//! traits that messages implement to be routed or persisted.
use vstd::prelude::*;
use crate::message::Protocol;
use crate::wire::two_pow_64;
use vstd::utf8::encode_utf8;

verus! {

/// The number of shards that routed messages are spread over.
pub const SHARD_COUNT: u32 = 128;

/// The id of a shard.
pub type ShardId = u32;

/// The FNV-1a hash state after folding `bytes` into `state`: for each byte,
/// xor it in, then multiply by the FNV prime modulo 2^64.
pub open spec fn fnv1a_from(state: u64, bytes: Seq<u8>) -> u64
    decreases bytes.len(),
{
    if bytes.len() == 0 {
        state
    } else {
        fnv1a_from(
            (((state ^ (bytes[0] as u64)) as int * 0x100000001b3) % two_pow_64()) as u64,
            bytes.drop_first(),
        )
    }
}

/// The 64-bit FNV-1a hash of `bytes`.
pub open spec fn fnv1a(bytes: Seq<u8>) -> u64 {
    fnv1a_from(0xcbf29ce484222325, bytes)
}

/// `FnvHasher::default`, then `write` of `bytes`, then `finish`: the FNV-1a
/// hash of the bytes.
#[verifier::external_body]
fn fnv_hash(bytes: &[u8]) -> (r: u64)
    ensures
        r == fnv1a(bytes@),
{
    let mut hasher = fnv::FnvHasher::default();
    std::hash::Hasher::write(&mut hasher, bytes);
    std::hash::Hasher::finish(&hasher)
}

/// A value that a routed message is routed on: its hash, modulo the shard
/// count, picks the shard.
pub trait RouteKey {
    /// The hash that the key routes on.
    spec fn route_hash(&self) -> u64;

    /// Hashes the route key.
    fn hash(&self) -> (r: u64)
        ensures
            r == self.route_hash(),
    ;
}

impl RouteKey for String {
    /// The FNV-1a hash of the string's UTF-8 bytes.
    open spec fn route_hash(&self) -> u64 {
        fnv1a(encode_utf8(self@))
    }

    fn hash(&self) -> (r: u64)
        ensures
            r == fnv1a(encode_utf8(self@)),
    {
        fnv_hash(self.as_str().as_bytes())
    }
}

impl RouteKey for u64 {
    /// The number itself.
    open spec fn route_hash(&self) -> u64 {
        *self
    }

    fn hash(&self) -> (r: u64) {
        *self
    }
}

/// An id that carries the shard it was made on: 41 bits of time, then 13
/// bits of shard, then 10 bits of sequence.
#[derive(PartialEq, Eq, Structural, Clone, Copy, Debug)]
pub struct InstaId(pub u64);

impl InstaId {
    /// The shard bits of the id.
    pub open spec fn shard_of(self) -> u64 {
        (self.0 >> 10u64) & 0x1fffu64
    }

    /// The shard the id was made on.
    pub fn shard(&self) -> (r: u64)
        ensures
            r == self.shard_of(),
    {
        (self.0 >> 10u64) & 0x1fffu64
    }
}

impl RouteKey for InstaId {
    /// The id's shard: an id routes to the shard it was made on.
    open spec fn route_hash(&self) -> u64 {
        self.shard_of()
    }

    fn hash(&self) -> (r: u64) {
        self.shard()
    }
}

/// A protocol message that can be persisted to a datastore under a primary key.
pub trait Persistable {
    /// The type of the primary key.
    type Key;

    /// The value of the primary key.
    fn primary_key(&self) -> Self::Key;

    /// Sets the primary key.
    fn set_primary_key(&mut self, value: Self::Key);
}

/// A protocol message that the router can route. When `route_key` gives a
/// key, the message goes to the shard its hash picks; otherwise it goes to
/// one of the available servers, picked at random.
pub trait Routable {
    /// The type of the route key.
    type H: RouteKey;

    /// The key to route on, if any.
    fn route_key(&self) -> Option<Self::H>;
}

/// The package name of a fully qualified message name: the part before the first `.`.
pub open spec fn package_of(name: Seq<char>) -> Seq<char>
    decreases name.len(),
{
    if name.len() == 0 {
        Seq::empty()
    } else if name[0] == '.' {
        Seq::empty()
    } else {
        seq![name[0]] + package_of(name.drop_first())
    }
}

/// The protocol whose messages live in the package named `p`.
pub open spec fn protocol_of_package(p: Seq<char>) -> Option<Protocol> {
    if p == seq!['n', 'e', 't'] {
        Some(Protocol::Net)
    } else if p == seq!['r', 'o', 'u', 't', 'e', 's', 'r', 'v'] {
        Some(Protocol::RouteSrv)
    } else if p == seq!['s', 'e', 's', 's', 'i', 'o', 'n', 's', 'r', 'v'] {
        Some(Protocol::SessionSrv)
    } else if p == seq!['o', 'r', 'i', 'g', 'i', 'n', 's', 'r', 'v'] {
        Some(Protocol::OriginSrv)
    } else if p == seq!['j', 'o', 'b', 's', 'r', 'v'] {
        Some(Protocol::JobSrv)
    } else if p == seq!['s', 'c', 'h', 'e', 'd', 'u', 'l', 'e', 'r'] {
        Some(Protocol::Scheduler)
    } else {
        None
    }
}

/// Whether two strings hold the same characters.
pub fn str_equal(a: &str, b: &str) -> (r: bool)
    ensures
        r == (a@ == b@),
{
    let n = a.unicode_len();
    proof {
        assert(a@.subrange(0, n as int) =~= a@);
    }
    chars_equal(a, 0, n, b)
}

fn chars_equal(s: &str, from: usize, to: usize, lit: &str) -> (r: bool)
    requires
        from <= to <= s@.len(),
    ensures
        r == (s@.subrange(from as int, to as int) == lit@),
{
    let n = lit.unicode_len();
    if to - from != n {
        return false;
    }
    let mut i: usize = 0;
    while i < n
        invariant
            n == lit@.len(),
            to - from == n,
            from <= to <= s@.len(),
            i <= n,
            forall|j: int| 0 <= j < i ==> s@[from + j] == lit@[j],
        decreases n - i,
    {
        if s.get_char(from + i) != lit.get_char(i) {
            assert(s@.subrange(from as int, to as int)[i as int] != lit@[i as int]);
            return false;
        }
        i = i + 1;
    }
    assert(s@.subrange(from as int, to as int) =~= lit@);
    true
}

/// The protocol of a message, by its fully qualified name: the package before
/// the first `.` names the protocol; `None` for a package that names none.
pub fn message_protocol(full_name: &str) -> (r: Option<Protocol>)
    ensures
        r == protocol_of_package(package_of(full_name@)),
{
    let len = full_name.unicode_len();
    let mut end: usize = 0;
    while end < len && full_name.get_char(end) != '.'
        invariant
            len == full_name@.len(),
            end <= len,
            forall|j: int| 0 <= j < end ==> full_name@[j] != '.',
        decreases len - end,
    {
        end = end + 1;
    }
    proof {
        lemma_package_of(full_name@, end as int);
        reveal_strlit("net");
        reveal_strlit("routesrv");
        reveal_strlit("sessionsrv");
        reveal_strlit("originsrv");
        reveal_strlit("jobsrv");
        reveal_strlit("scheduler");
        assert("net"@ =~= seq!['n', 'e', 't']);
        assert("routesrv"@ =~= seq!['r', 'o', 'u', 't', 'e', 's', 'r', 'v']);
        assert("sessionsrv"@ =~= seq!['s', 'e', 's', 's', 'i', 'o', 'n', 's', 'r', 'v']);
        assert("originsrv"@ =~= seq!['o', 'r', 'i', 'g', 'i', 'n', 's', 'r', 'v']);
        assert("jobsrv"@ =~= seq!['j', 'o', 'b', 's', 'r', 'v']);
        assert("scheduler"@ =~= seq!['s', 'c', 'h', 'e', 'd', 'u', 'l', 'e', 'r']);
    }
    if chars_equal(full_name, 0, end, "net") {
        Some(Protocol::Net)
    } else if chars_equal(full_name, 0, end, "routesrv") {
        Some(Protocol::RouteSrv)
    } else if chars_equal(full_name, 0, end, "sessionsrv") {
        Some(Protocol::SessionSrv)
    } else if chars_equal(full_name, 0, end, "originsrv") {
        Some(Protocol::OriginSrv)
    } else if chars_equal(full_name, 0, end, "jobsrv") {
        Some(Protocol::JobSrv)
    } else if chars_equal(full_name, 0, end, "scheduler") {
        Some(Protocol::Scheduler)
    } else {
        None
    }
}

proof fn lemma_package_of(name: Seq<char>, end: int)
    requires
        0 <= end <= name.len(),
        forall|j: int| 0 <= j < end ==> name[j] != '.',
        end == name.len() || name[end] == '.',
    ensures
        package_of(name) == name.subrange(0, end),
    decreases name.len(),
{
    if name.len() > 0 && end > 0 {
        lemma_package_of(name.drop_first(), end - 1);
        assert(seq![name[0]] + name.drop_first().subrange(0, end - 1) =~= name.subrange(0, end));
    } else {
        assert(name.subrange(0, end) =~= Seq::<char>::empty());
    }
}


/// FNV-1a over two runs of bytes is FNV-1a over the second, started from the
/// state the first leaves: every byte of the input is folded in, in order.
pub proof fn law_fnv1a_concat(state: u64, a: Seq<u8>, b: Seq<u8>)
    ensures
        fnv1a_from(state, a + b) == fnv1a_from(fnv1a_from(state, a), b),
    decreases a.len(),
{
    if a.len() > 0 {
        let next = (((state ^ (a[0] as u64)) as int * 0x100000001b3) % two_pow_64()) as u64;
        assert((a + b).drop_first() =~= a.drop_first() + b);
        assert((a + b)[0] == a[0]);
        law_fnv1a_concat(next, a.drop_first(), b);
    } else {
        assert(a + b =~= b);
    }
}

/// Folding one more byte into FNV-1a xors it into the state and multiplies
/// by the FNV prime modulo 2^64.
pub proof fn law_fnv1a_push(state: u64, a: Seq<u8>, byte: u8)
    ensures
        fnv1a_from(state, a.push(byte)) == (((fnv1a_from(state, a) ^ (byte as u64)) as int * 0x100000001b3)
            % two_pow_64()) as u64,
{
    law_fnv1a_concat(state, a, seq![byte]);
    assert(a.push(byte) =~= a + seq![byte]);
    assert(seq![byte].drop_first() =~= Seq::<u8>::empty());
    let st = fnv1a_from(state, a);
    let next = (((st ^ (byte as u64)) as int * 0x100000001b3) % two_pow_64()) as u64;
    assert(fnv1a_from(st, seq![byte]) == fnv1a_from(next, seq![byte].drop_first()));
    assert(fnv1a_from(next, Seq::<u8>::empty()) == next);
}

/// A string routes on the FNV-1a hash of all of its UTF-8 bytes.
pub proof fn law_string_route_hash(s: String)
    ensures
        s.route_hash() == fnv1a(encode_utf8(s@)),
{
}

} // verus!
