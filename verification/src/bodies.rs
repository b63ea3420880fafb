//! The message bodies that the router reads and writes: the registration a
//! server sends, and the replies and heartbeats.
use vstd::prelude::*;
use vstd::utf8::*;
use crate::message::{
    clone_fields, append_fields, decode, encode, fold_fields, insert_unknown, lemma_canonical_concat,
    lemma_fold_concat, lemma_fold_one, lemma_unknown_canonical, lemma_unknown_drop_last,
    lemma_unknown_insert, lemma_unknown_insert_in_order, lemma_unknown_sorted_prefix, unknown_insert,
    unknown_sorted,
    opt_err_code_number, opt_i32_field, opt_str_field, unknown_fields_ok, err_code_number,
    err_code_of_number, wire_decode, wire_encode, ErrCode, ProtocolError, WireMessage,
};
use crate::wire::{
    canonical_field, canonical_fields, fields_view, kind_in, read_field_ok, two_pow_32, Field,
    FieldKind, FieldV, FieldValue, FieldValueV,
};

verus! {

// ---------------------------------------------------------------------------
// NetError
// ---------------------------------------------------------------------------

/// The fields of an error reply: `code` (1, enum) and `msg` (2, string).
pub open spec fn net_error_schema() -> Seq<(u32, FieldKind)> {
    seq![(1u32, FieldKind::I32), (2u32, FieldKind::Str)]
}

/// An error reply: a code and a message.
pub struct NetError {
    code: Option<ErrCode>,
    msg: Option<String>,
    unknown: Vec<Field>,
}

/// The mathematical value of a [`NetError`].
pub struct NetErrorV {
    pub code: Option<ErrCode>,
    pub msg: Option<Seq<char>>,
    pub unknown: Seq<FieldV>,
}

impl View for NetError {
    type V = NetErrorV;

    closed spec fn view(&self) -> NetErrorV {
        NetErrorV {
            code: self.code,
            msg: match self.msg {
                Some(s) => Some(s@),
                None => None,
            },
            unknown: fields_view(self.unknown@),
        }
    }
}

/// The error reply with no field set.
pub open spec fn net_error_empty() -> NetErrorV {
    NetErrorV { code: None, msg: None, unknown: Seq::empty() }
}

/// Merges one field into an error reply; a code number that names no code is refused.
pub open spec fn net_error_apply(e: NetErrorV, f: FieldV) -> Option<NetErrorV> {
    if f.number == 1 {
        match f.value {
            FieldValueV::I32(v) => match err_code_of_number(v) {
                Some(c) => Some(NetErrorV { code: Some(c), ..e }),
                None => None,
            },
            _ => None,
        }
    } else if f.number == 2 {
        match f.value {
            FieldValueV::Str(c) => Some(NetErrorV { msg: Some(c), ..e }),
            _ => None,
        }
    } else {
        match f.value {
            FieldValueV::Unknown(_) => Some(NetErrorV { unknown: unknown_insert(e.unknown, f), ..e }),
            FieldValueV::Skipped => Some(e),
            _ => None,
        }
    }
}

/// The fields the writer emits for an error reply.
pub open spec fn net_error_fields(e: NetErrorV) -> Seq<FieldV> {
    opt_i32_field(1, opt_err_code_number(e.code)) + opt_str_field(2, e.msg) + e.unknown
}

proof fn lemma_net_error_kinds(n: u32)
    ensures
        kind_in(net_error_schema(), 1) == FieldKind::I32,
        kind_in(net_error_schema(), 2) == FieldKind::Str,
        kind_in(net_error_schema(), n) == FieldKind::Other ==> n != 1 && n != 2,
        kind_in(net_error_schema(), n) == FieldKind::I32 ==> n == 1,
        kind_in(net_error_schema(), n) == FieldKind::Str ==> n == 2,
        kind_in(net_error_schema(), n) != FieldKind::U64,
        kind_in(net_error_schema(), n) != FieldKind::Bool,
        kind_in(net_error_schema(), n) != FieldKind::RepeatedU32,
{
    reveal_with_fuel(kind_in, 3);
}

proof fn lemma_net_error_unknowns(e: NetErrorV, u: Seq<FieldV>)
    requires
        unknown_fields_ok(net_error_schema(), u),
        unknown_sorted(e.unknown + u),
    ensures
        fold_fields(NetError::step(), e, u) == Some(NetErrorV { unknown: e.unknown + u, ..e }),
    decreases u.len(),
{
    if u.len() == 0 {
        assert(e.unknown + u =~= e.unknown);
    } else {
        lemma_unknown_drop_last(net_error_schema(), u);
        lemma_net_error_kinds(u.last().number);
        lemma_unknown_sorted_prefix(e.unknown, u);
        lemma_net_error_unknowns(e, u.drop_last());
        lemma_unknown_insert_in_order(e.unknown + u.drop_last(), u.last());
    }
}

impl WireMessage for NetError {
    open spec fn schema() -> Seq<(u32, FieldKind)> {
        net_error_schema()
    }

    open spec fn empty() -> NetErrorV {
        net_error_empty()
    }

    open spec fn step() -> spec_fn(NetErrorV, FieldV) -> Option<NetErrorV> {
        |e: NetErrorV, f: FieldV| net_error_apply(e, f)
    }

    open spec fn fields_of(m: NetErrorV) -> Seq<FieldV> {
        net_error_fields(m)
    }

    open spec fn encodable(m: NetErrorV) -> bool {
        &&& (m.msg matches Some(c) ==> encode_utf8(c).len() < two_pow_32())
        &&& unknown_fields_ok(net_error_schema(), m.unknown)
    }

    fn schema_vec() -> (r: Vec<(u32, FieldKind)>) {
        let mut v: Vec<(u32, FieldKind)> = Vec::new();
        v.push((1, FieldKind::I32));
        v.push((2, FieldKind::Str));
        assert(v@ =~= net_error_schema());
        v
    }

    fn new_empty() -> (r: NetError) {
        let e = NetError { code: None, msg: None, unknown: Vec::new() };
        assert(fields_view(e.unknown@) =~= Seq::<FieldV>::empty());
        e
    }

    fn apply_field(&mut self, f: Field) -> (ok: bool) {
        proof {
            lemma_net_error_kinds(f.number);
        }
        let ghost before = self@;
        let ghost fv = f@;
        match f.value {
            FieldValue::I32(v) => {
                match ErrCode::from_i32(v) {
                    Some(c) => {
                        self.code = Some(c);
                        true
                    },
                    None => false,
                }
            },
            FieldValue::Str(m) => {
                self.msg = Some(m);
                true
            },
            FieldValue::Unknown(u) => {
                let g = Field { number: f.number, value: FieldValue::Unknown(u) };
                assert(g@ == fv);
                insert_unknown(&mut self.unknown, g);
                proof {
                    lemma_unknown_insert(net_error_schema(), before.unknown, g@);
                }
                true
            },
            _ => true,
        }
    }

    fn to_fields(&self) -> (r: Vec<Field>) {
        let mut fs: Vec<Field> = Vec::new();
        match self.code {
            Some(c) => fs.push(Field { number: 1, value: FieldValue::I32(c.value()) }),
            None => {},
        }
        match &self.msg {
            Some(m) => fs.push(Field { number: 2, value: FieldValue::Str(m.clone()) }),
            None => {},
        }
        assert(fields_view(fs@) =~= opt_i32_field(1, opt_err_code_number(self@.code)) + opt_str_field(
            2,
            self@.msg,
        ));
        let mut unknown = clone_fields(&self.unknown);
        append_fields(&mut fs, &mut unknown);
        assert(fields_view(fs@) =~= net_error_fields(self@));
        fs
    }

    proof fn lemma_fields_roundtrip(m: NetErrorV) {
        lemma_net_error_kinds(1);
        let a1 = opt_i32_field(1, opt_err_code_number(m.code));
        let a2 = opt_str_field(2, m.msg);
        let e = net_error_empty();
        lemma_fold_concat(Self::step(), e, a1 + a2, m.unknown);
        lemma_fold_concat(Self::step(), e, a1, a2);
        if m.code is Some {
            lemma_fold_one(Self::step(), e, a1[0]);
        } else {
            assert(fold_fields(Self::step(), e, a1) == Some(e));
        }
        let e1 = fold_fields(Self::step(), e, a1).unwrap();
        if m.msg is Some {
            lemma_fold_one(Self::step(), e1, a2[0]);
        }
        let e2 = fold_fields(Self::step(), e1, a2).unwrap();
        assert(e2 == NetErrorV { unknown: Seq::empty(), ..m });
        lemma_net_error_unknowns(e2, m.unknown);
        assert(Seq::<FieldV>::empty() + m.unknown =~= m.unknown);
        lemma_unknown_canonical(net_error_schema(), m.unknown);
        assert(canonical_fields(net_error_schema(), a1 + a2)) by {
            assert forall|i: int| 0 <= i < (a1 + a2).len() implies canonical_field(
                net_error_schema(),
                #[trigger] (a1 + a2)[i],
            ) by {}
        }
        lemma_canonical_concat(net_error_schema(), a1 + a2, m.unknown);
    }
}

impl NetError {
    /// The error code; `BUG` (the first) when unset.
    pub fn code(&self) -> (r: ErrCode)
        ensures
            r == match self@.code {
                Some(c) => c,
                None => ErrCode::BUG,
            },
    {
        match self.code {
            Some(c) => c,
            None => ErrCode::BUG,
        }
    }

    /// The error message; empty when unset.
    pub fn msg(&self) -> (r: &str)
        ensures
            r@ == match self@.msg {
                Some(c) => c,
                None => Seq::<char>::empty(),
            },
    {
        match &self.msg {
            Some(s) => s.as_str(),
            None => {
                proof {
                    reveal_strlit("");
                }
                ""
            },
        }
    }
}

/// An error reply with the given code and message.
pub fn err(code: ErrCode, msg: &str) -> (r: NetError)
    ensures
        r@ == (NetErrorV { code: Some(code), msg: Some(msg@), unknown: Seq::empty() }),
{
    let e = NetError { code: Some(code), msg: Some(msg.to_owned()), unknown: Vec::new() };
    assert(fields_view(e.unknown@) =~= Seq::<FieldV>::empty());
    e
}

// ---------------------------------------------------------------------------
// Messages without named fields: NetOk and Heartbeat
// ---------------------------------------------------------------------------

/// The fields of a message that names none.
pub open spec fn no_schema() -> Seq<(u32, FieldKind)> {
    Seq::empty()
}

/// The mathematical value of a message that names no field: its unknown fields.
pub struct UnknownOnlyV {
    pub unknown: Seq<FieldV>,
}

/// Merges one field into a message that names none.
pub open spec fn unknown_only_apply(m: UnknownOnlyV, f: FieldV) -> Option<UnknownOnlyV> {
    match f.value {
        FieldValueV::Unknown(_) => Some(UnknownOnlyV { unknown: unknown_insert(m.unknown, f) }),
        FieldValueV::Skipped => Some(m),
        _ => None,
    }
}

proof fn lemma_unknown_only_fold(
    step: spec_fn(UnknownOnlyV, FieldV) -> Option<UnknownOnlyV>,
    m: UnknownOnlyV,
    u: Seq<FieldV>,
)
    requires
        unknown_fields_ok(no_schema(), u),
        unknown_sorted(m.unknown + u),
        forall|a: UnknownOnlyV, f: FieldV| #[trigger] step(a, f) == unknown_only_apply(a, f),
    ensures
        fold_fields(step, m, u) == Some(UnknownOnlyV { unknown: m.unknown + u }),
    decreases u.len(),
{
    if u.len() == 0 {
        assert(m.unknown + u =~= m.unknown);
    } else {
        lemma_unknown_drop_last(no_schema(), u);
        lemma_unknown_sorted_prefix(m.unknown, u);
        lemma_unknown_only_fold(step, m, u.drop_last());
        lemma_unknown_insert_in_order(m.unknown + u.drop_last(), u.last());
    }
}

/// The reply that says a request succeeded.
pub struct NetOk {
    unknown: Vec<Field>,
}

impl View for NetOk {
    type V = UnknownOnlyV;

    closed spec fn view(&self) -> UnknownOnlyV {
        UnknownOnlyV { unknown: fields_view(self.unknown@) }
    }
}

impl WireMessage for NetOk {
    open spec fn schema() -> Seq<(u32, FieldKind)> {
        no_schema()
    }

    open spec fn empty() -> UnknownOnlyV {
        UnknownOnlyV { unknown: Seq::empty() }
    }

    open spec fn step() -> spec_fn(UnknownOnlyV, FieldV) -> Option<UnknownOnlyV> {
        |m: UnknownOnlyV, f: FieldV| unknown_only_apply(m, f)
    }

    open spec fn fields_of(m: UnknownOnlyV) -> Seq<FieldV> {
        m.unknown
    }

    open spec fn encodable(m: UnknownOnlyV) -> bool {
        unknown_fields_ok(no_schema(), m.unknown)
    }

    fn schema_vec() -> (r: Vec<(u32, FieldKind)>) {
        let v: Vec<(u32, FieldKind)> = Vec::new();
        assert(v@ =~= no_schema());
        v
    }

    fn new_empty() -> (r: NetOk) {
        NetOk::new()
    }

    fn apply_field(&mut self, f: Field) -> (ok: bool) {
        let ghost before = self@;
        let ghost fv = f@;
        match f.value {
            FieldValue::Unknown(u) => {
                let g = Field { number: f.number, value: FieldValue::Unknown(u) };
                assert(g@ == fv);
                insert_unknown(&mut self.unknown, g);
                proof {
                    lemma_unknown_insert(no_schema(), before.unknown, g@);
                }
                true
            },
            FieldValue::Skipped => true,
            _ => false,
        }
    }

    fn to_fields(&self) -> (r: Vec<Field>) {
        clone_fields(&self.unknown)
    }

    proof fn lemma_fields_roundtrip(m: UnknownOnlyV) {
        lemma_unknown_only_fold(Self::step(), Self::empty(), m.unknown);
        assert(Seq::<FieldV>::empty() + m.unknown =~= m.unknown);
        lemma_unknown_canonical(no_schema(), m.unknown);
    }
}

impl NetOk {
    /// The success reply, with no field.
    pub fn new() -> (r: NetOk)
        ensures
            r@ == (UnknownOnlyV { unknown: Seq::empty() }),
            NetOk::encodable(r@),
    {
        let m = NetOk { unknown: Vec::new() };
        assert(fields_view(m.unknown@) =~= Seq::<FieldV>::empty());
        m
    }
}

/// The heartbeat that a server sends the routers it is connected to.
pub struct Heartbeat {
    unknown: Vec<Field>,
}

impl View for Heartbeat {
    type V = UnknownOnlyV;

    closed spec fn view(&self) -> UnknownOnlyV {
        UnknownOnlyV { unknown: fields_view(self.unknown@) }
    }
}

impl WireMessage for Heartbeat {
    open spec fn schema() -> Seq<(u32, FieldKind)> {
        no_schema()
    }

    open spec fn empty() -> UnknownOnlyV {
        UnknownOnlyV { unknown: Seq::empty() }
    }

    open spec fn step() -> spec_fn(UnknownOnlyV, FieldV) -> Option<UnknownOnlyV> {
        |m: UnknownOnlyV, f: FieldV| unknown_only_apply(m, f)
    }

    open spec fn fields_of(m: UnknownOnlyV) -> Seq<FieldV> {
        m.unknown
    }

    open spec fn encodable(m: UnknownOnlyV) -> bool {
        unknown_fields_ok(no_schema(), m.unknown)
    }

    fn schema_vec() -> (r: Vec<(u32, FieldKind)>) {
        let v: Vec<(u32, FieldKind)> = Vec::new();
        assert(v@ =~= no_schema());
        v
    }

    fn new_empty() -> (r: Heartbeat) {
        Heartbeat::new()
    }

    fn apply_field(&mut self, f: Field) -> (ok: bool) {
        let ghost before = self@;
        let ghost fv = f@;
        match f.value {
            FieldValue::Unknown(u) => {
                let g = Field { number: f.number, value: FieldValue::Unknown(u) };
                assert(g@ == fv);
                insert_unknown(&mut self.unknown, g);
                proof {
                    lemma_unknown_insert(no_schema(), before.unknown, g@);
                }
                true
            },
            FieldValue::Skipped => true,
            _ => false,
        }
    }

    fn to_fields(&self) -> (r: Vec<Field>) {
        clone_fields(&self.unknown)
    }

    proof fn lemma_fields_roundtrip(m: UnknownOnlyV) {
        lemma_unknown_only_fold(Self::step(), Self::empty(), m.unknown);
        assert(Seq::<FieldV>::empty() + m.unknown =~= m.unknown);
        lemma_unknown_canonical(no_schema(), m.unknown);
    }
}

impl Heartbeat {
    /// A heartbeat, with no field.
    pub fn new() -> (r: Heartbeat)
        ensures
            r@ == (UnknownOnlyV { unknown: Seq::empty() }),
            Heartbeat::encodable(r@),
    {
        let m = Heartbeat { unknown: Vec::new() };
        assert(fields_view(m.unknown@) =~= Seq::<FieldV>::empty());
        m
    }
}


// ---------------------------------------------------------------------------
// Connect
// ---------------------------------------------------------------------------

/// The fields of a registration: `shards` (1, repeated uint32).
pub open spec fn connect_schema() -> Seq<(u32, FieldKind)> {
    seq![(1u32, FieldKind::RepeatedU32)]
}

/// The registration a server sends a router: the shards it hosts.
pub struct Connect {
    shards: Vec<u32>,
    unknown: Vec<Field>,
}

/// The mathematical value of a [`Connect`].
pub struct ConnectV {
    pub shards: Seq<u32>,
    pub unknown: Seq<FieldV>,
}

impl View for Connect {
    type V = ConnectV;

    closed spec fn view(&self) -> ConnectV {
        ConnectV { shards: self.shards@, unknown: fields_view(self.unknown@) }
    }
}

/// The registration with no shard.
pub open spec fn connect_empty() -> ConnectV {
    ConnectV { shards: Seq::empty(), unknown: Seq::empty() }
}

/// Merges one field into a registration: shards read are appended to those before.
pub open spec fn connect_apply(c: ConnectV, f: FieldV) -> Option<ConnectV> {
    if f.number == 1 {
        match f.value {
            FieldValueV::U32s(vs) => Some(ConnectV { shards: c.shards + vs, ..c }),
            _ => None,
        }
    } else {
        match f.value {
            FieldValueV::Unknown(_) => Some(ConnectV { unknown: unknown_insert(c.unknown, f), ..c }),
            FieldValueV::Skipped => Some(c),
            _ => None,
        }
    }
}

/// One shard, written as its own field.
pub open spec fn shard_field(s: u32) -> FieldV {
    FieldV { number: 1, value: FieldValueV::U32s(seq![s]) }
}

/// The shards, written unpacked: one field each.
pub open spec fn shard_fields(shards: Seq<u32>) -> Seq<FieldV> {
    shards.map_values(|s: u32| shard_field(s))
}

/// The fields the writer emits for a registration.
pub open spec fn connect_fields(c: ConnectV) -> Seq<FieldV> {
    shard_fields(c.shards) + c.unknown
}

proof fn lemma_connect_kinds(n: u32)
    ensures
        kind_in(connect_schema(), 1) == FieldKind::RepeatedU32,
        kind_in(connect_schema(), n) == FieldKind::Other ==> n != 1,
        kind_in(connect_schema(), n) == FieldKind::RepeatedU32 ==> n == 1,
        kind_in(connect_schema(), n) != FieldKind::U64,
        kind_in(connect_schema(), n) != FieldKind::Bool,
        kind_in(connect_schema(), n) != FieldKind::Str,
        kind_in(connect_schema(), n) != FieldKind::I32,
{
    reveal_with_fuel(kind_in, 2);
}

proof fn lemma_connect_unknowns(c: ConnectV, u: Seq<FieldV>)
    requires
        unknown_fields_ok(connect_schema(), u),
        unknown_sorted(c.unknown + u),
    ensures
        fold_fields(Connect::step(), c, u) == Some(ConnectV { unknown: c.unknown + u, ..c }),
    decreases u.len(),
{
    if u.len() == 0 {
        assert(c.unknown + u =~= c.unknown);
    } else {
        lemma_unknown_drop_last(connect_schema(), u);
        lemma_connect_kinds(u.last().number);
        lemma_unknown_sorted_prefix(c.unknown, u);
        lemma_connect_unknowns(c, u.drop_last());
        lemma_unknown_insert_in_order(c.unknown + u.drop_last(), u.last());
    }
}

proof fn lemma_connect_shards(shards: Seq<u32>)
    ensures
        fold_fields(Connect::step(), connect_empty(), shard_fields(shards)) == Some(
            ConnectV { shards, unknown: Seq::empty() },
        ),
    decreases shards.len(),
{
    if shards.len() == 0 {
        assert(shard_fields(shards) =~= Seq::<FieldV>::empty());
        assert(shards =~= Seq::<u32>::empty());
    } else {
        let init = shards.drop_last();
        assert(shard_fields(shards).drop_last() =~= shard_fields(init));
        lemma_connect_shards(init);
        assert(shard_fields(shards).last() == shard_field(shards.last()));
        assert(init + seq![shards.last()] =~= shards);
    }
}

impl WireMessage for Connect {
    open spec fn schema() -> Seq<(u32, FieldKind)> {
        connect_schema()
    }

    open spec fn empty() -> ConnectV {
        connect_empty()
    }

    open spec fn step() -> spec_fn(ConnectV, FieldV) -> Option<ConnectV> {
        |c: ConnectV, f: FieldV| connect_apply(c, f)
    }

    open spec fn fields_of(m: ConnectV) -> Seq<FieldV> {
        connect_fields(m)
    }

    open spec fn encodable(m: ConnectV) -> bool {
        unknown_fields_ok(connect_schema(), m.unknown)
    }

    fn schema_vec() -> (r: Vec<(u32, FieldKind)>) {
        let mut v: Vec<(u32, FieldKind)> = Vec::new();
        v.push((1, FieldKind::RepeatedU32));
        assert(v@ =~= connect_schema());
        v
    }

    fn new_empty() -> (r: Connect) {
        Connect::new(Vec::new())
    }

    fn apply_field(&mut self, f: Field) -> (ok: bool) {
        proof {
            lemma_connect_kinds(f.number);
        }
        let ghost before = self@;
        let ghost fv = f@;
        match f.value {
            FieldValue::U32s(vs) => {
                let mut vs = vs;
                self.shards.append(&mut vs);
                true
            },
            FieldValue::Unknown(u) => {
                let g = Field { number: f.number, value: FieldValue::Unknown(u) };
                assert(g@ == fv);
                insert_unknown(&mut self.unknown, g);
                proof {
                    lemma_unknown_insert(connect_schema(), before.unknown, g@);
                }
                true
            },
            _ => true,
        }
    }

    fn to_fields(&self) -> (r: Vec<Field>) {
        let mut fs: Vec<Field> = Vec::new();
        let mut i: usize = 0;
        while i < self.shards.len()
            invariant
                i <= self.shards@.len(),
                fields_view(fs@) == shard_fields(self.shards@.take(i as int)),
            decreases self.shards@.len() - i,
        {
            let mut one: Vec<u32> = Vec::new();
            one.push(self.shards[i]);
            let ghost before = fields_view(fs@);
            fs.push(Field { number: 1, value: FieldValue::U32s(one) });
            proof {
                assert(one@ =~= seq![self.shards@[i as int]]);
                assert(fields_view(fs@) =~= before.push(shard_field(self.shards@[i as int])));
                assert(shard_fields(self.shards@.take(i + 1)) =~= shard_fields(self.shards@.take(i as int)).push(
                    shard_field(self.shards@[i as int]),
                ));
            }
            i = i + 1;
        }
        assert(self.shards@.take(i as int) =~= self.shards@);
        let mut unknown = clone_fields(&self.unknown);
        append_fields(&mut fs, &mut unknown);
        assert(fields_view(fs@) =~= connect_fields(self@));
        fs
    }

    proof fn lemma_fields_roundtrip(m: ConnectV) {
        lemma_connect_kinds(1);
        let a = shard_fields(m.shards);
        lemma_fold_concat(Self::step(), connect_empty(), a, m.unknown);
        lemma_connect_shards(m.shards);
        lemma_connect_unknowns(ConnectV { shards: m.shards, unknown: Seq::empty() }, m.unknown);
        assert(Seq::<FieldV>::empty() + m.unknown =~= m.unknown);
        lemma_unknown_canonical(connect_schema(), m.unknown);
        assert(canonical_fields(connect_schema(), a)) by {
            assert forall|i: int| 0 <= i < a.len() implies canonical_field(connect_schema(), #[trigger] a[i]) by {}
        }
        lemma_canonical_concat(connect_schema(), a, m.unknown);
    }
}

impl Connect {
    /// A registration for the given shards.
    pub fn new(shards: Vec<u32>) -> (r: Connect)
        ensures
            r@ == (ConnectV { shards: shards@, unknown: Seq::empty() }),
            Connect::encodable(r@),
    {
        let c = Connect { shards, unknown: Vec::new() };
        assert(fields_view(c.unknown@) =~= Seq::<FieldV>::empty());
        c
    }

    /// The shards.
    pub fn shards(&self) -> (r: &Vec<u32>)
        ensures
            r@ == self@.shards,
    {
        &self.shards
    }

    /// Takes the shards out, leaving none.
    pub fn take_shards(&mut self) -> (r: Vec<u32>)
        ensures
            r@ == old(self)@.shards,
            final(self)@ == (ConnectV { shards: Seq::empty(), ..old(self)@ }),
    {
        let mut taken: Vec<u32> = Vec::new();
        std::mem::swap(&mut taken, &mut self.shards);
        taken
    }
}

} // verus!
