//! The router's registry of servers: which server hosts each shard of each
//! protocol, and when each registration is next pinged and expires.
use vstd::prelude::*;
use std::collections::HashMap;
use vstd::std_specs::iter::IteratorSpec;
use crate::message::{protocol_number, Protocol};

verus! {

broadcast use vstd::std_specs::hash::group_hash_axioms;

/// Milliseconds between pings of a registered server.
pub const PING_INTERVAL: i64 = 2_000;

/// Milliseconds after which a registration expires unless renewed.
pub const SERVER_TTL: i64 = 6_000;

/// The keys of a hash map, each once, in the order it walks them.
fn keys_of<K: Copy, V>(m: &HashMap<K, V>) -> (r: Vec<K>)
    requires
        vstd::std_specs::hash::obeys_key_model::<K>(),
    ensures
        r@.to_set() == m@.dom(),
        r@.no_duplicates(),
        r@.len() == m@.dom().len(),
{
    let ghost all = vstd::std_specs::hash::spec_keys_iter(m).remaining();
    let mut out: Vec<K> = Vec::new();
    for k in it: m.keys()
        invariant
            it.seq() == all,
            out@ == it.seq().take(it.index() as int).map_values(|x: &K| *x),
    {
        out.push(*k);
        assert(it.seq().take(it.index() + 1).map_values(|x: &K| *x) =~= out@);
    }
    assert(all.take(all.len() as int) =~= all);
    assert(out@ =~= all.unref());
    out
}

/// The first `i + 1` elements hold `x` when the first `i` do or `x` is the next.
proof fn lemma_take_next_contains<T>(s: Seq<T>, i: int)
    requires
        0 <= i < s.len(),
    ensures
        forall|x: T| #[trigger] s.take(i + 1).contains(x) <==> (s.take(i).contains(x) || x == s[i]),
{
    assert(s.take(i + 1) =~= s.take(i).push(s[i]));
    assert forall|x: T| #[trigger] s.take(i + 1).contains(x) <==> (s.take(i).contains(x) || x == s[i]) by {
        if s.take(i).contains(x) {
            let w = choose|w: int| 0 <= w < s.take(i).len() && #[trigger] s.take(i)[w] == x;
            assert(s.take(i + 1)[w] == x);
        }
        if x == s[i] {
            assert(s.take(i + 1)[i] == x);
        }
        if s.take(i + 1).contains(x) {
            let w = choose|w: int| 0 <= w < s.take(i + 1).len() && #[trigger] s.take(i + 1)[w] == x;
            if w < i {
                assert(s.take(i)[w] == x);
            }
        }
    }
}

/// In a run without duplicates, the element at `i` is not among those before it.
proof fn lemma_no_dup_take_not_contains<T>(s: Seq<T>, i: int)
    requires
        0 <= i < s.len(),
        s.no_duplicates(),
    ensures
        !s.take(i).contains(s[i]),
{
    if s.take(i).contains(s[i]) {
        let w = choose|w: int| 0 <= w < s.take(i).len() && #[trigger] s.take(i)[w] == s[i];
        assert(s[w] == s[i]);
    }
}

/// `time::get_time`: the current wall-clock time as seconds and nanoseconds
/// since the epoch; the nanoseconds are below one second, as `Timespec::new`
/// asserts. Nothing else is known of the result: it is the time.
#[verifier::external_body]
fn wall_clock() -> (r: (i64, i32))
    ensures
        0 <= r.1 < 1_000_000_000,
{
    let t = time::get_time();
    (t.sec, t.nsec)
}

/// `v` as an `i64` computed with wrapping arithmetic: the low 64 bits of `v`
/// in two's complement, as `+` and `*` on `i64` give them in a release build.
pub open spec fn wrap_i64(v: int) -> i64 {
    v as i64
}

/// Milliseconds since the epoch for a time of `sec` seconds and `nsec`
/// nanoseconds, with wrapping `i64` arithmetic.
pub open spec fn clock_ms_of(sec: i64, nsec: i32) -> i64 {
    wrap_i64(wrap_i64(sec * 1000) + nsec / 1_000_000)
}

/// Milliseconds since the epoch for a time of `sec` seconds and `nsec`
/// nanoseconds, computed with wrapping `i64` arithmetic.
pub fn clock_ms(sec: i64, nsec: i32) -> (r: i64)
    requires
        0 <= nsec < 1_000_000_000,
    ensures
        r == clock_ms_of(sec, nsec),
{
    let ms = (nsec / 1000 / 1000) as i64;
    assert(nsec / 1000 / 1000 == nsec / 1_000_000);
    let s = (sec as i128 * 1000) as i64;
    (s as i128 + ms as i128) as i64
}

/// A registered server: its network identity, whether it is known to be
/// alive, when it is next pinged and when its registration expires
/// (milliseconds since the epoch).
#[derive(Clone, Debug, Eq, Hash)]
pub struct ServerReg {
    /// The server's network identity.
    pub endpoint: String,
    /// True when the server is known to be alive.
    pub alive: bool,
    /// When the server is next pinged.
    pub ping_at: i64,
    /// When the registration expires.
    pub expires: i64,
}

/// The mathematical value of a [`ServerReg`].
pub struct ServerRegV {
    pub endpoint: Seq<char>,
    pub alive: bool,
    pub ping_at: i64,
    pub expires: i64,
}

impl View for ServerReg {
    type V = ServerRegV;

    open spec fn view(&self) -> ServerRegV {
        ServerRegV {
            endpoint: self.endpoint@,
            alive: self.alive,
            ping_at: self.ping_at,
            expires: self.expires,
        }
    }
}

/// A new registration of `endpoint` made at `now` (milliseconds): not yet
/// known to be alive, pinged after the ping interval, expiring after the TTL.
pub open spec fn reg_at(endpoint: Seq<char>, now: i64) -> ServerRegV {
    ServerRegV {
        endpoint,
        alive: false,
        ping_at: wrap_i64(now + PING_INTERVAL),
        expires: wrap_i64(now + SERVER_TTL),
    }
}

/// `r` renewed at `now`: pinged and expiring again from `now`; its endpoint
/// and liveness unchanged.
pub open spec fn renewed_at(r: ServerRegV, now: i64) -> ServerRegV {
    ServerRegV {
        ping_at: wrap_i64(now + PING_INTERVAL),
        expires: wrap_i64(now + SERVER_TTL),
        ..r
    }
}

fn add_wrapping(a: i64, b: i64) -> (r: i64)
    ensures
        r == wrap_i64(a + b),
{
    (a as i128 + b as i128) as i64
}

impl ServerReg {
    /// The wall-clock time in milliseconds since the epoch.
    pub fn clock_time() -> (r: i64)
        ensures
            exists|sec: i64, nsec: i32| 0 <= nsec < 1_000_000_000 && r == clock_ms_of(sec, nsec),
    {
        let (sec, nsec) = wall_clock();
        clock_ms(sec, nsec)
    }

    /// A registration of `endpoint` made at `now`.
    pub fn new_at(endpoint: String, now: i64) -> (r: ServerReg)
        ensures
            r@ == reg_at(endpoint@, now),
    {
        ServerReg {
            endpoint,
            alive: false,
            ping_at: add_wrapping(now, PING_INTERVAL),
            expires: add_wrapping(now, SERVER_TTL),
        }
    }

    /// A registration of `endpoint` made now.
    pub fn new(endpoint: String) -> (r: ServerReg)
        ensures
            exists|now: i64| r@ == reg_at(endpoint@, now),
    {
        let now = Self::clock_time();
        Self::new_at(endpoint, now)
    }

    /// Renews the registration at `now`.
    pub fn renew_at(&mut self, now: i64)
        ensures
            final(self)@ == renewed_at(old(self)@, now),
    {
        self.ping_at = add_wrapping(now, PING_INTERVAL);
        self.expires = add_wrapping(now, SERVER_TTL);
    }

    /// Renews the registration now.
    pub fn renew(&mut self)
        ensures
            exists|now: i64| final(self)@ == renewed_at(old(self)@, now),
    {
        let now = Self::clock_time();
        self.renew_at(now);
    }

    /// A copy of the registration.
    pub fn copy(&self) -> (r: ServerReg)
        ensures
            r@ == self@,
    {
        ServerReg {
            endpoint: self.endpoint.clone(),
            alive: self.alive,
            ping_at: self.ping_at,
            expires: self.expires,
        }
    }

    /// Two registrations are the same when they name the same endpoint.
    pub fn same_endpoint(&self, other: &ServerReg) -> (r: bool)
        ensures
            r == (self@.endpoint == other@.endpoint),
    {
        self.endpoint == other.endpoint
    }
}

/// Two registrations are equal when they name the same endpoint.
impl PartialEq for ServerReg {
    fn eq(&self, other: &ServerReg) -> (r: bool) {
        self.endpoint == other.endpoint
    }
}

impl vstd::std_specs::cmp::PartialEqSpecImpl for ServerReg {
    open spec fn obeys_eq_spec() -> bool {
        true
    }

    open spec fn eq_spec(&self, other: &ServerReg) -> bool {
        self.endpoint@ == other.endpoint@
    }
}

/// The registrations of one protocol, by shard.
pub open spec fn shard_regs_view(m: HashMap<u32, ServerReg>) -> Map<u32, ServerRegV> {
    m@.map_values(|r: ServerReg| r@)
}

/// The registry: for each protocol, by its wire number, the registration of
/// each shard.
pub struct ServerMap(HashMap<i32, HashMap<u32, ServerReg>>);

proof fn lemma_regs_insert(m: Map<u32, ServerReg>, k: u32, v: ServerReg)
    ensures
        m.insert(k, v).map_values(|r: ServerReg| r@) == m.map_values(|r: ServerReg| r@).insert(k, v@),
{
    assert(m.insert(k, v).map_values(|r: ServerReg| r@) =~= m.map_values(|r: ServerReg| r@).insert(k, v@));
}

proof fn lemma_regs_remove(m: Map<u32, ServerReg>, k: u32)
    ensures
        m.remove(k).map_values(|r: ServerReg| r@) == m.map_values(|r: ServerReg| r@).remove(k),
{
    assert(m.remove(k).map_values(|r: ServerReg| r@) =~= m.map_values(|r: ServerReg| r@).remove(k));
}

/// The registry's view of its hash map.
pub open spec fn registry_view(m: Map<i32, HashMap<u32, ServerReg>>) -> Map<i32, Map<u32, ServerRegV>> {
    m.map_values(|x: HashMap<u32, ServerReg>| shard_regs_view(x))
}

proof fn lemma_registry_insert(m: Map<i32, HashMap<u32, ServerReg>>, k: i32, v: HashMap<u32, ServerReg>)
    ensures
        registry_view(m.insert(k, v)) == registry_view(m).insert(k, shard_regs_view(v)),
{
    assert(registry_view(m.insert(k, v)) =~= registry_view(m).insert(k, shard_regs_view(v)));
}

proof fn lemma_registry_remove(m: Map<i32, HashMap<u32, ServerReg>>, k: i32)
    ensures
        registry_view(m.remove(k)) == registry_view(m).remove(k),
{
    assert(registry_view(m.remove(k)) =~= registry_view(m).remove(k));
}

impl View for ServerMap {
    type V = Map<i32, Map<u32, ServerRegV>>;

    closed spec fn view(&self) -> Map<i32, Map<u32, ServerRegV>> {
        registry_view(self.0@)
    }
}

/// The registrations of protocol `p`; none when the protocol has no entry.
pub open spec fn regs_of(m: Map<i32, Map<u32, ServerRegV>>, p: i32) -> Map<u32, ServerRegV> {
    if m.contains_key(p) {
        m[p]
    } else {
        Map::empty()
    }
}

/// Whether one of `shards` is registered in `regs` to an endpoint other than `netid`.
pub open spec fn has_conflict(regs: Map<u32, ServerRegV>, netid: Seq<char>, shards: Seq<u32>) -> bool {
    exists|i: int|
        0 <= i < shards.len() && regs.contains_key(shards[i]) && #[trigger] regs[shards[i]].endpoint
            != netid
}

/// `regs` with each of `shards` registered to `reg`.
pub open spec fn assign_shards(regs: Map<u32, ServerRegV>, shards: Seq<u32>, reg: ServerRegV) -> Map<
    u32,
    ServerRegV,
> {
    Map::new(
        |k: u32| regs.contains_key(k) || shards.contains(k),
        |k: u32|
            if shards.contains(k) {
                reg
            } else {
                regs[k]
            },
    )
}

/// `regs` without the registrations of `netid`.
pub open spec fn without_endpoint(regs: Map<u32, ServerRegV>, netid: Seq<char>) -> Map<u32, ServerRegV> {
    Map::new(|k: u32| regs.contains_key(k) && regs[k].endpoint != netid, |k: u32| regs[k])
}

/// `new` is `old` with each registration of `netid` renewed at some time,
/// and every other registration unchanged.
pub open spec fn renewed_regs(old: Map<u32, ServerRegV>, new: Map<u32, ServerRegV>, netid: Seq<char>) -> bool {
    &&& new.dom() == old.dom()
    &&& forall|k: u32| #[trigger]
        old.contains_key(k) ==> renewed_reg(old[k], new[k], netid)
}

/// `new` is `old` renewed at some time when `old` is a registration of
/// `netid`, and `old` unchanged otherwise.
pub open spec fn renewed_reg(old: ServerRegV, new: ServerRegV, netid: Seq<char>) -> bool {
    if old.endpoint == netid {
        exists|t: i64| new == #[trigger] renewed_at(old, t)
    } else {
        new == old
    }
}

/// In every protocol, `new` is `old` with each registration of `netid`
/// renewed at some time, and every other registration unchanged.
pub open spec fn renewed_map(old: Map<i32, Map<u32, ServerRegV>>, new: Map<i32, Map<u32, ServerRegV>>, netid: Seq<char>) -> bool {
    &&& new.dom() == old.dom()
    &&& forall|p: i32| #[trigger] old.contains_key(p) ==> renewed_regs(old[p], new[p], netid)
}

/// Renews every registration of `netid` in one protocol's registrations.
fn renew_regs(regs: &mut HashMap<u32, ServerReg>, netid: &String)
    ensures
        renewed_regs(shard_regs_view(*old(regs)), shard_regs_view(*final(regs)), netid@),
{
    let ghost orig = shard_regs_view(*regs);
    let keys = keys_of(regs);
    let mut i: usize = 0;
    while i < keys.len()
        invariant
            i <= keys@.len(),
            keys@.to_set() == orig.dom(),
            keys@.no_duplicates(),
            orig == shard_regs_view(*old(regs)),
            shard_regs_view(*regs).dom() == orig.dom(),
            forall|k: u32| #[trigger]
                orig.contains_key(k) ==> if keys@.take(i as int).contains(k) {
                    renewed_reg(orig[k], shard_regs_view(*regs)[k], netid@)
                } else {
                    shard_regs_view(*regs)[k] == orig[k]
                },
        decreases keys@.len() - i,
    {
        let k = keys[i];
        proof {
            assert(keys@.to_set().contains(k));
            lemma_no_dup_take_not_contains(keys@, i as int);
            assert(shard_regs_view(*regs).contains_key(k));
        }
        let ghost before = regs@;
        let mut reg = regs.remove(&k).unwrap();
        proof {
            assert(before.map_values(|r: ServerReg| r@)[k] == reg@);
        }
        let ghost old_reg = reg@;
        if reg.endpoint == *netid {
            reg.renew();
        }
        let ghost mid = regs@;
        regs.insert(k, reg);
        proof {
            assert(regs@ == before.remove(k).insert(k, reg));
            assert(shard_regs_view(*regs) =~= before.map_values(|r: ServerReg| r@).insert(k, reg@));
            lemma_take_next_contains(keys@, i as int);
            assert(renewed_reg(orig[k], reg@, netid@));
        }
        i = i + 1;
    }
    proof {
        assert(keys@.take(i as int) =~= keys@);
        assert forall|x: u32| orig.contains_key(x) implies keys@.take(i as int).contains(x) by {
            assert(keys@.to_set().contains(x));
        }
    }
}

impl Default for ServerMap {
    /// An empty registry.
    fn default() -> (r: ServerMap)
        ensures
            r@ == Map::<i32, Map<u32, ServerRegV>>::empty(),
    {
        ServerMap::new()
    }
}

impl ServerMap {
    /// An empty registry.
    pub fn new() -> (r: ServerMap)
        ensures
            r@ == Map::<i32, Map<u32, ServerRegV>>::empty(),
    {
        let r = ServerMap(HashMap::new());
        assert(r@ =~= Map::<i32, Map<u32, ServerRegV>>::empty());
        r
    }

    /// Registers `netid` for each of `shards` of `protocol`, as made at `now`;
    /// refused, changing nothing, when one of the shards is held by another
    /// endpoint. A shard already held by `netid` is registered anew.
    pub fn add_at(&mut self, protocol: Protocol, netid: String, shards: Vec<u32>, now: i64) -> (r: bool)
        ensures
            r == !has_conflict(regs_of(old(self)@, protocol_number(protocol)), netid@, shards@),
            !r ==> final(self)@ == old(self)@,
            r ==> final(self)@ == old(self)@.insert(
                protocol_number(protocol),
                assign_shards(regs_of(old(self)@, protocol_number(protocol)), shards@, reg_at(netid@, now)),
            ),
    {
        let p = protocol.value();
        let ghost old_regs = regs_of(old(self)@, p);
        if !self.0.contains_key(&p) {
            let fresh: HashMap<u32, ServerReg> = HashMap::new();
            let ghost fresh_v = fresh;
            self.0.insert(p, fresh);
            proof {
                lemma_registry_insert(old(self).0@, p, fresh_v);
                assert(shard_regs_view(self.0@[p]) =~= old_regs);
            }
        }
        let ghost with_p = self.0@;
        let mut regs = self.0.remove(&p).unwrap();
        let ghost base = self.0@;
        proof {
            lemma_registry_remove(with_p, p);
            assert(registry_view(base) =~= old(self)@.remove(p));
            assert(shard_regs_view(regs) =~= old_regs);
        }
        let mut i: usize = 0;
        while i < shards.len()
            invariant
                i <= shards@.len(),
                p == protocol_number(protocol),
                self.0@ == base,
                registry_view(base) == old(self)@.remove(p),
                old_regs == regs_of(old(self)@, p),
                shard_regs_view(regs) == old_regs,
                forall|j: int|
                    0 <= j < i ==> !(old_regs.contains_key(shards@[j]) && #[trigger] old_regs[shards@[j]].endpoint
                        != netid@),
            decreases shards@.len() - i,
        {
            match regs.get(&shards[i]) {
                Some(reg) => {
                    assert(regs@.contains_key(shards@[i as int]));
                    assert(shard_regs_view(regs).contains_key(shards@[i as int]));
                    assert(old_regs.contains_key(shards@[i as int]));
                    if reg.endpoint != netid {
                        assert(old_regs[shards@[i as int]].endpoint != netid@);
                        let ghost before = self.0@;
                        self.0.insert(p, regs);
                        proof {
                            lemma_registry_insert(before, p, regs);
                            assert(old(self)@.contains_key(p));
                            assert(self@ =~= old(self)@);
                        }
                        return false;
                    }
                },
                None => {},
            }
            i = i + 1;
        }
        let registration = ServerReg::new_at(netid, now);
        let mut j: usize = 0;
        while j < shards.len()
            invariant
                j <= shards@.len(),
                self.0@ == base,
                registration@ == reg_at(netid@, now),
                shard_regs_view(regs) == assign_shards(old_regs, shards@.take(j as int), registration@),
            decreases shards@.len() - j,
        {
            let reg = registration.copy();
            let ghost before = regs@;
            regs.insert(shards[j], reg);
            proof {
                lemma_regs_insert(before, shards@[j as int], reg);
                lemma_take_next_contains(shards@, j as int);
                assert(shard_regs_view(regs) =~= assign_shards(old_regs, shards@.take(j + 1), registration@));
            }
            j = j + 1;
        }
        assert(shards@.take(j as int) =~= shards@);
        self.0.insert(p, regs);
        proof {
            lemma_registry_insert(base, p, regs);
            assert(self@ =~= old(self)@.insert(p, assign_shards(old_regs, shards@, reg_at(netid@, now))));
        }
        true
    }

    /// Registers `netid` for each of `shards` of `protocol`, as made now;
    /// refused, changing nothing, when one of the shards is held by another endpoint.
    pub fn add(&mut self, protocol: Protocol, netid: String, shards: Vec<u32>) -> (r: bool)
        ensures
            r == !has_conflict(regs_of(old(self)@, protocol_number(protocol)), netid@, shards@),
            !r ==> final(self)@ == old(self)@,
            r ==> exists|now: i64|
                final(self)@ == old(self)@.insert(
                    protocol_number(protocol),
                    #[trigger] assign_shards(regs_of(old(self)@, protocol_number(protocol)), shards@, reg_at(netid@, now)),
                ),
    {
        let now = ServerReg::clock_time();
        self.add_at(protocol, netid, shards, now)
    }

    /// Removes every registration of `netid` under `protocol`.
    pub fn drop(&mut self, protocol: &Protocol, netid: &str)
        ensures
            final(self)@ == if old(self)@.contains_key(protocol_number(*protocol)) {
                old(self)@.insert(
                    protocol_number(*protocol),
                    without_endpoint(old(self)@[protocol_number(*protocol)], netid@),
                )
            } else {
                old(self)@
            },
    {
        let p = protocol.value();
        if !self.0.contains_key(&p) {
            return;
        }
        let netid = netid.to_owned();
        let ghost with_p = self.0@;
        let mut regs = self.0.remove(&p).unwrap();
        let ghost base = self.0@;
        let ghost orig = shard_regs_view(regs);
        proof {
            lemma_registry_remove(with_p, p);
        }
        let keys = keys_of(&regs);
        let mut i: usize = 0;
        while i < keys.len()
            invariant
                i <= keys@.len(),
                self.0@ == base,
                keys@.to_set() == orig.dom(),
                keys@.no_duplicates(),
                shard_regs_view(regs) == Map::new(
                    |k: u32| orig.contains_key(k) && (keys@.take(i as int).contains(k) ==> orig[k].endpoint != netid@),
                    |k: u32| orig[k],
                ),
            decreases keys@.len() - i,
        {
            let k = keys[i];
            proof {
                assert(keys@.to_set().contains(k));
                lemma_no_dup_take_not_contains(keys@, i as int);
            }
            let matches = match regs.get(&k) {
                Some(reg) => {
                    assert(regs@.contains_key(k) && regs@[k] == *reg);
                    assert(shard_regs_view(regs)[k] == reg@);
                    reg.endpoint == netid
                },
                None => {
                    assert(shard_regs_view(regs).contains_key(k));
                    false
                },
            };
            let ghost before = regs@;
            if matches {
                regs.remove(&k);
                proof {
                    lemma_regs_remove(before, k);
                }
            }
            proof {
                lemma_take_next_contains(keys@, i as int);
                assert(shard_regs_view(regs) =~= Map::new(
                    |x: u32| orig.contains_key(x) && (keys@.take(i + 1).contains(x) ==> orig[x].endpoint != netid@),
                    |x: u32| orig[x],
                ));
            }
            i = i + 1;
        }
        proof {
            assert(keys@.take(i as int) =~= keys@);
            assert forall|x: u32| orig.contains_key(x) implies keys@.take(i as int).contains(x) by {
                assert(keys@.to_set().contains(x));
            }
        }
        self.0.insert(p, regs);
        proof {
            lemma_registry_insert(base, p, regs);
            assert(shard_regs_view(regs) =~= without_endpoint(orig, netid@));
            assert(self@ =~= old(self)@.insert(p, without_endpoint(orig, netid@)));
        }
    }

    /// Renews, now, every registration of `netid`, in every protocol; every
    /// other registration is unchanged.
    pub fn renew(&mut self, netid: &str)
        ensures
            renewed_map(old(self)@, final(self)@, netid@),
    {
        let netid = netid.to_owned();
        let pkeys = keys_of(&self.0);
        let mut i: usize = 0;
        while i < pkeys.len()
            invariant
                i <= pkeys@.len(),
                pkeys@.to_set() == old(self)@.dom(),
                pkeys@.no_duplicates(),
                self@.dom() == old(self)@.dom(),
                forall|p: i32| #[trigger]
                    old(self)@.contains_key(p) ==> if pkeys@.take(i as int).contains(p) {
                        renewed_regs(old(self)@[p], self@[p], netid@)
                    } else {
                        self@[p] == old(self)@[p]
                    },
            decreases pkeys@.len() - i,
        {
            let p = pkeys[i];
            proof {
                assert(pkeys@.to_set().contains(p));
                lemma_no_dup_take_not_contains(pkeys@, i as int);
                assert(self.0@.contains_key(p));
            }
            let ghost before = self.0@;
            let mut regs = self.0.remove(&p).unwrap();
            renew_regs(&mut regs, &netid);
            self.0.insert(p, regs);
            proof {
                assert(self.0@ == before.remove(p).insert(p, regs));
                lemma_registry_remove(before, p);
                lemma_registry_insert(before.remove(p), p, regs);
                lemma_take_next_contains(pkeys@, i as int);
                assert(self@ =~= registry_view(before).insert(p, shard_regs_view(regs)));
            }
            i = i + 1;
        }
        proof {
            assert(pkeys@.take(i as int) =~= pkeys@);
            assert forall|x: i32| old(self)@.contains_key(x) implies pkeys@.take(i as int).contains(x) by {
                assert(pkeys@.to_set().contains(x));
            }
        }
    }

    /// The shards registered under `protocol`, each once.
    pub fn shards(&self, protocol: &Protocol) -> (r: Vec<u32>)
        ensures
            r@.to_set() == regs_of(self@, protocol_number(*protocol)).dom(),
            r@.no_duplicates(),
    {
        let p = protocol.value();
        match self.0.get(&p) {
            Some(regs) => {
                let r = keys_of(regs);
                assert(shard_regs_view(*regs).dom() =~= regs@.dom());
                r
            },
            None => {
                let r: Vec<u32> = Vec::new();
                assert(r@.to_set() =~= Set::<u32>::empty());
                r
            },
        }
    }

    /// The registration of `shard` under `protocol`, if any.
    pub fn get(&self, protocol: &Protocol, shard: &u32) -> (r: Option<&ServerReg>)
        ensures
            match r {
                Some(reg) => self@.contains_key(protocol_number(*protocol)) && self@[protocol_number(
                    *protocol,
                )].contains_key(*shard) && reg@ == self@[protocol_number(*protocol)][*shard],
                None => !(self@.contains_key(protocol_number(*protocol)) && self@[protocol_number(
                    *protocol,
                )].contains_key(*shard)),
            },
    {
        let p = protocol.value();
        match self.0.get(&p) {
            Some(shards) => shards.get(shard),
            None => None,
        }
    }
}


// ---------------------------------------------------------------------------
// Laws of the registry
// ---------------------------------------------------------------------------

/// After a registration, each listed shard of the protocol is held by the
/// registering endpoint; every other shard of the protocol, and every other
/// protocol, is as it was.
pub proof fn law_add_registers(old: Map<i32, Map<u32, ServerRegV>>, p: i32, netid: Seq<char>, shards: Seq<u32>, now: i64)
    ensures
        ({
            let new = old.insert(p, assign_shards(regs_of(old, p), shards, reg_at(netid, now)));
            &&& forall|i: int|
                0 <= i < shards.len() ==> new[p].contains_key(#[trigger] shards[i]) && new[p][shards[i]]
                    == reg_at(netid, now)
            &&& forall|k: u32|
                !shards.contains(k) ==> (#[trigger] new[p].contains_key(k) == regs_of(old, p).contains_key(k)
                    && (regs_of(old, p).contains_key(k) ==> new[p][k] == regs_of(old, p)[k]))
            &&& forall|q: i32| q != p ==> (#[trigger] new.contains_key(q) == old.contains_key(q) && (
            old.contains_key(q) ==> new[q] == old[q]))
        }),
{
    let new = old.insert(p, assign_shards(regs_of(old, p), shards, reg_at(netid, now)));
    assert forall|i: int| 0 <= i < shards.len() implies new[p].contains_key(#[trigger] shards[i]) && new[p][shards[i]]
        == reg_at(netid, now) by {
        assert(shards.contains(shards[i]));
    }
}

/// A server that registers again for shards it already holds, or that are
/// free, is not refused: a registration that was accepted is accepted again.
pub proof fn law_reregister_accepted(regs: Map<u32, ServerRegV>, netid: Seq<char>, shards: Seq<u32>, now: i64)
    requires
        !has_conflict(regs, netid, shards),
    ensures
        !has_conflict(assign_shards(regs, shards, reg_at(netid, now)), netid, shards),
{
    let new = assign_shards(regs, shards, reg_at(netid, now));
    assert forall|i: int| 0 <= i < shards.len() && new.contains_key(shards[i]) implies #[trigger] new[shards[i]].endpoint
        == netid by {
        assert(shards.contains(shards[i]));
    }
}

/// Dropping an endpoint removes every registration it holds, and keeps every
/// registration of the other endpoints.
pub proof fn law_drop_removes(regs: Map<u32, ServerRegV>, netid: Seq<char>)
    ensures
        forall|k: u32| #[trigger]
            without_endpoint(regs, netid).contains_key(k) ==> without_endpoint(regs, netid)[k].endpoint != netid,
        forall|k: u32|
            #[trigger] regs.contains_key(k) && regs[k].endpoint != netid ==> without_endpoint(regs, netid).contains_key(k)
                && without_endpoint(regs, netid)[k] == regs[k],
{
}

/// Once an endpoint is dropped, the shards it held are free: another
/// endpoint registering for shards that were free or held by the dropped
/// one is not refused.
pub proof fn law_drop_frees_shards(regs: Map<u32, ServerRegV>, dropped: Seq<char>, other: Seq<char>, shards: Seq<u32>)
    requires
        forall|i: int|
            0 <= i < shards.len() && regs.contains_key(shards[i]) ==> #[trigger] regs[shards[i]].endpoint
                == dropped,
    ensures
        !has_conflict(without_endpoint(regs, dropped), other, shards),
{
}

/// Renewing never changes which endpoint holds which shard, nor whether it
/// is known to be alive: only the times move.
pub proof fn law_renew_keeps_holders(old: Map<i32, Map<u32, ServerRegV>>, new: Map<i32, Map<u32, ServerRegV>>, netid: Seq<char>)
    requires
        renewed_map(old, new, netid),
    ensures
        forall|p: i32, k: u32|
            old.contains_key(p) && #[trigger] old[p].contains_key(k) ==> new.contains_key(p) && new[p].contains_key(k)
                && new[p][k].endpoint == old[p][k].endpoint && new[p][k].alive == old[p][k].alive,
{
    assert forall|p: i32, k: u32|
        old.contains_key(p) && #[trigger] old[p].contains_key(k) implies new.contains_key(p) && new[p].contains_key(k)
            && new[p][k].endpoint == old[p][k].endpoint && new[p][k].alive == old[p][k].alive by {
        assert(renewed_regs(old[p], new[p], netid));
        assert(renewed_reg(old[p][k], new[p][k], netid));
        if old[p][k].endpoint == netid {
            let t = choose|t: i64| new[p][k] == #[trigger] renewed_at(old[p][k], t);
        }
    }
}

/// A registration made or renewed at `now` is pinged the ping interval after
/// `now` and expires the TTL after `now`, unless those times are past the
/// range of an `i64` (where they wrap around).
pub proof fn law_registration_times(endpoint: Seq<char>, r: ServerRegV, now: i64)
    requires
        now <= i64::MAX - SERVER_TTL,
    ensures
        reg_at(endpoint, now).ping_at == now + PING_INTERVAL,
        reg_at(endpoint, now).expires == now + SERVER_TTL,
        renewed_at(r, now).ping_at == now + PING_INTERVAL,
        renewed_at(r, now).expires == now + SERVER_TTL,
        renewed_at(r, now).endpoint == r.endpoint,
{
}


/// Renewing never moves a registration's expiry back: a registration made
/// or last renewed at `t0` and renewed at a later `now` expires no earlier
/// than before, is pinged as long before its expiry as a new one, and keeps
/// its endpoint and liveness. This holds while the times stay within the
/// range of an `i64`.
pub proof fn law_renew_never_moves_expiry_back(r: ServerRegV, t0: i64, now: i64)
    requires
        r.ping_at == wrap_i64(t0 + PING_INTERVAL),
        r.expires == wrap_i64(t0 + SERVER_TTL),
        t0 <= now <= i64::MAX - SERVER_TTL,
    ensures
        renewed_at(r, now).expires >= r.expires,
        renewed_at(r, now).ping_at >= r.ping_at,
        renewed_at(r, now).expires - renewed_at(r, now).ping_at == SERVER_TTL - PING_INTERVAL,
        renewed_at(r, now).endpoint == r.endpoint,
        renewed_at(r, now).alive == r.alive,
{
}


/// A registration is refused whenever any one of the listed shards is held
/// by another endpoint, whatever the other listed shards are.
pub proof fn law_conflict_refuses(regs: Map<u32, ServerRegV>, netid: Seq<char>, shards: Seq<u32>, i: int)
    requires
        0 <= i < shards.len(),
        regs.contains_key(shards[i]),
        regs[shards[i]].endpoint != netid,
    ensures
        has_conflict(regs, netid, shards),
{
    assert(regs[shards[i]].endpoint != netid);
}

/// A registration is accepted only when every listed shard that is held is
/// held by the registering endpoint.
pub proof fn law_accepted_shards_are_free_or_own(regs: Map<u32, ServerRegV>, netid: Seq<char>, shards: Seq<u32>)
    requires
        !has_conflict(regs, netid, shards),
    ensures
        forall|i: int|
            0 <= i < shards.len() && #[trigger] regs.contains_key(shards[i]) ==> regs[shards[i]].endpoint == netid,
{
    assert forall|i: int| 0 <= i < shards.len() && #[trigger] regs.contains_key(shards[i]) implies regs[shards[i]].endpoint
        == netid by {
        if regs[shards[i]].endpoint != netid {
            law_conflict_refuses(regs, netid, shards, i);
        }
    }
}

} // verus!
