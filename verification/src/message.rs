//! The protocol's messages: the frame parts of a routed message (header,
//! routing information, transaction) and the bodies the router answers with,
//! each read from and written to protobuf wire bytes under the message's
//! field schema.
use vstd::prelude::*;
use vstd::utf8::*;
use crate::wire::{
    kind_in,
    canonical_field, canonical_fields, fields_bytes, fields_read, fields_view, lemma_fields_read_ok,
    lemma_fields_roundtrip, read_field_ok, read_fields, two_pow_32, write_fields, writable_field,
    writable_fields, Field, FieldKind, FieldV, FieldValue, FieldValueV, UnknownV, UnknownValue,
};

verus! {

// ---------------------------------------------------------------------------
// Errors
// ---------------------------------------------------------------------------

/// What can go wrong with a protocol message.
#[derive(Debug)]
pub enum ProtocolError {
    /// The bytes are not a valid encoding of the expected message.
    Decode,
    /// An identity frame is not valid UTF-8; the frame's bytes are kept.
    IdentityDecode(Vec<u8>),
    /// The message has no sender identity yet.
    MsgNotInitialized,
}

// ---------------------------------------------------------------------------
// Reading a message field by field
// ---------------------------------------------------------------------------

/// Applies the fields one after another to `init`, as a generated reader
/// merges them: `None` as soon as one is refused.
pub open spec fn fold_fields<M>(apply: spec_fn(M, FieldV) -> Option<M>, init: M, fs: Seq<FieldV>) -> Option<M>
    decreases fs.len(),
{
    if fs.len() == 0 {
        Some(init)
    } else {
        match fold_fields(apply, init, fs.drop_last()) {
            Some(m) => apply(m, fs.last()),
            None => None,
        }
    }
}

/// Folding over two runs of fields is folding over the first, then over the second.
pub proof fn lemma_fold_concat<M>(
    apply: spec_fn(M, FieldV) -> Option<M>,
    init: M,
    a: Seq<FieldV>,
    b: Seq<FieldV>,
)
    ensures
        fold_fields(apply, init, a + b) == match fold_fields(apply, init, a) {
            Some(m) => fold_fields(apply, m, b),
            None => None,
        },
    decreases b.len(),
{
    if b.len() == 0 {
        assert(a + b =~= a);
    } else {
        assert((a + b).drop_last() =~= a + b.drop_last());
        lemma_fold_concat(apply, init, a, b.drop_last());
    }
}

/// The order in which the unknown fields of a message are kept: by field
/// number, and within a number by wire type (fixed32, fixed64, varint, then
/// length-delimited), as protobuf groups them per number and per wire type.
pub open spec fn unknown_key(f: FieldV) -> int {
    f.number * 4 + match f.value {
        FieldValueV::Unknown(UnknownV::Fixed32(_)) => 0int,
        FieldValueV::Unknown(UnknownV::Fixed64(_)) => 1int,
        FieldValueV::Unknown(UnknownV::Varint(_)) => 2int,
        _ => 3int,
    }
}

/// Unknown fields in the order they are kept: grouped by number and wire
/// type, each group's values in the order they came.
pub open spec fn unknown_sorted(u: Seq<FieldV>) -> bool {
    forall|i: int, j: int| 0 <= i < j < u.len() ==> unknown_key(#[trigger] u[i]) <= unknown_key(#[trigger] u[j])
}

/// `u` with one more unknown field kept: after every field whose key is not
/// greater than its own, before the others.
pub open spec fn unknown_insert(u: Seq<FieldV>, f: FieldV) -> Seq<FieldV>
    decreases u.len(),
{
    if u.len() == 0 || unknown_key(u.last()) <= unknown_key(f) {
        u.push(f)
    } else {
        unknown_insert(u.drop_last(), f).push(u.last())
    }
}

/// Keeping a field adds one element: `f`; every other element comes from `u`.
pub proof fn lemma_unknown_insert_elements(u: Seq<FieldV>, f: FieldV, p: spec_fn(FieldV) -> bool)
    requires
        forall|i: int| 0 <= i < u.len() ==> p(#[trigger] u[i]),
        p(f),
    ensures
        unknown_insert(u, f).len() == u.len() + 1,
        forall|i: int| 0 <= i < unknown_insert(u, f).len() ==> p(#[trigger] unknown_insert(u, f)[i]),
    decreases u.len(),
{
    if u.len() == 0 || unknown_key(u.last()) <= unknown_key(f) {
        assert forall|i: int| 0 <= i < u.push(f).len() implies p(#[trigger] u.push(f)[i]) by {
            if i < u.len() {
                assert(u.push(f)[i] == u[i]);
            }
        }
    } else {
        let w = unknown_insert(u.drop_last(), f);
        assert forall|i: int| 0 <= i < u.drop_last().len() implies p(#[trigger] u.drop_last()[i]) by {
            assert(u.drop_last()[i] == u[i]);
        }
        lemma_unknown_insert_elements(u.drop_last(), f, p);
        assert(p(u[u.len() - 1]));
        assert forall|i: int| 0 <= i < w.push(u.last()).len() implies p(#[trigger] w.push(u.last())[i]) by {
            if i < w.len() {
                assert(w.push(u.last())[i] == w[i]);
            }
        }
    }
}

/// Keeping a field keeps the fields in order.
pub proof fn lemma_unknown_insert_sorted(u: Seq<FieldV>, f: FieldV)
    requires
        unknown_sorted(u),
    ensures
        unknown_sorted(unknown_insert(u, f)),
    decreases u.len(),
{
    if u.len() == 0 || unknown_key(u.last()) <= unknown_key(f) {
        let r = u.push(f);
        assert forall|i: int, j: int| 0 <= i < j < r.len() implies unknown_key(#[trigger] r[i]) <= unknown_key(
            #[trigger] r[j],
        ) by {
            if j < u.len() {
                assert(r[i] == u[i] && r[j] == u[j]);
            } else {
                assert(r[i] == u[i]);
                if i < u.len() - 1 {
                    assert(unknown_key(u[i]) <= unknown_key(u[u.len() - 1]));
                }
            }
        }
    } else {
        let l = u.last();
        let v = u.drop_last();
        assert(unknown_sorted(v)) by {
            assert forall|i: int, j: int| 0 <= i < j < v.len() implies unknown_key(#[trigger] v[i])
                <= unknown_key(#[trigger] v[j]) by {
                assert(v[i] == u[i] && v[j] == u[j]);
            }
        }
        lemma_unknown_insert_sorted(v, f);
        let w = unknown_insert(v, f);
        let lk = unknown_key(l);
        assert forall|i: int| 0 <= i < v.len() implies (|x: FieldV| unknown_key(x) <= lk)(#[trigger] v[i]) by {
            assert(v[i] == u[i]);
            assert(unknown_key(u[i]) <= unknown_key(u[u.len() - 1]));
        }
        lemma_unknown_insert_elements(v, f, |x: FieldV| unknown_key(x) <= lk);
        let r = w.push(l);
        assert forall|i: int, j: int| 0 <= i < j < r.len() implies unknown_key(#[trigger] r[i]) <= unknown_key(
            #[trigger] r[j],
        ) by {
            assert(r[i] == w[i]);
            if j < w.len() {
                assert(r[j] == w[j]);
            } else {
                assert((|x: FieldV| unknown_key(x) <= lk)(w[i]));
            }
        }
    }
}

/// A field that keeps the run in order when put last is kept last.
pub proof fn lemma_unknown_insert_in_order(u: Seq<FieldV>, f: FieldV)
    requires
        unknown_sorted(u.push(f)),
    ensures
        unknown_insert(u, f) == u.push(f),
{
    if u.len() > 0 {
        assert(u.push(f)[u.len() - 1] == u.last());
        assert(u.push(f)[u.len() as int] == f);
    }
}

/// Dropping the last of a run after `a` keeps the run in order.
pub proof fn lemma_unknown_sorted_prefix(a: Seq<FieldV>, u: Seq<FieldV>)
    requires
        unknown_sorted(a + u),
        u.len() > 0,
    ensures
        unknown_sorted(a + u.drop_last()),
        (a + u.drop_last()).push(u.last()) == a + u,
{
    let s = a + u;
    let t = a + u.drop_last();
    assert(t =~= s.drop_last());
    assert forall|i: int, j: int| 0 <= i < j < t.len() implies unknown_key(#[trigger] t[i]) <= unknown_key(
        #[trigger] t[j],
    ) by {
        assert(t[i] == s[i] && t[j] == s[j]);
    }
    assert(t.push(u.last()) =~= s);
}

/// The key under which an unknown field is kept.
fn unknown_key_of(f: &Field) -> (r: u64)
    ensures
        r == unknown_key(f@),
{
    let t: u64 = match &f.value {
        FieldValue::Unknown(UnknownValue::Fixed32(_)) => 0,
        FieldValue::Unknown(UnknownValue::Fixed64(_)) => 1,
        FieldValue::Unknown(UnknownValue::Varint(_)) => 2,
        _ => 3,
    };
    f.number as u64 * 4 + t
}

/// Keeps one more unknown field, in its place among the others.
pub fn insert_unknown(u: &mut Vec<Field>, f: Field)
    ensures
        fields_view(final(u)@) == unknown_insert(fields_view(old(u)@), f@),
    decreases old(u)@.len(),
{
    let n = u.len();
    if n == 0 || unknown_key_of(&u[n - 1]) <= unknown_key_of(&f) {
        proof {
            if n > 0 {
                assert(fields_view(old(u)@).last() == u@[n - 1]@);
            }
        }
        u.push(f);
        proof {
            assert(fields_view(u@) =~= fields_view(old(u)@).push(f@));
        }
        return;
    }
    let l = u.pop().unwrap();
    proof {
        assert(fields_view(u@) =~= fields_view(old(u)@).drop_last());
        assert(fields_view(old(u)@).last() == l@);
    }
    insert_unknown(u, f);
    u.push(l);
    proof {
        assert(fields_view(u@) =~= unknown_insert(fields_view(old(u)@).drop_last(), f@).push(l@));
    }
}

/// Fields that a message keeps as unknown under `schema`: each is an unknown
/// value under a valid number that the schema does not name, and they are
/// kept grouped by number and wire type.
pub open spec fn unknown_fields_ok(schema: Seq<(u32, FieldKind)>, fs: Seq<FieldV>) -> bool {
    &&& forall|i: int|
        0 <= i < fs.len() ==> {
            &&& read_field_ok(schema, #[trigger] fs[i])
            &&& fs[i].value is Unknown
        }
    &&& unknown_sorted(fs)
}

/// Unknown fields read with the fields that the schema names are canonical.
pub proof fn lemma_unknown_canonical(schema: Seq<(u32, FieldKind)>, fs: Seq<FieldV>)
    requires
        unknown_fields_ok(schema, fs),
    ensures
        canonical_fields(schema, fs),
{
    assert forall|i: int| 0 <= i < fs.len() implies canonical_field(schema, #[trigger] fs[i]) by {
        assert(read_field_ok(schema, fs[i]));
    }
}

/// Canonical runs stay canonical when joined.
pub proof fn lemma_canonical_concat(schema: Seq<(u32, FieldKind)>, a: Seq<FieldV>, b: Seq<FieldV>)
    requires
        canonical_fields(schema, a),
        canonical_fields(schema, b),
    ensures
        canonical_fields(schema, a + b),
{
    assert forall|i: int| 0 <= i < (a + b).len() implies canonical_field(schema, #[trigger] (a + b)[i]) by {
        if i < a.len() {
            assert((a + b)[i] == a[i]);
        } else {
            assert((a + b)[i] == b[i - a.len()]);
        }
    }
}

/// A message of the protocol, read from and written to wire bytes.
///
/// `schema` names the fields the message knows; `step` merges one field read
/// from the wire into the message; `fields_of` lists the fields the writer
/// emits for a message, in order; `encodable` holds of a message whose fields
/// can be written and read back.
pub trait WireMessage: Sized + View {
    spec fn schema() -> Seq<(u32, FieldKind)>;

    spec fn empty() -> Self::V;

    spec fn step() -> spec_fn(Self::V, FieldV) -> Option<Self::V>;

    spec fn fields_of(m: Self::V) -> Seq<FieldV>;

    spec fn encodable(m: Self::V) -> bool;

    /// The field schema, as a table.
    fn schema_vec() -> (r: Vec<(u32, FieldKind)>)
        ensures
            r@ == Self::schema(),
    ;

    /// The message with no field set.
    fn new_empty() -> (r: Self)
        ensures
            r@ == Self::empty(),
            Self::encodable(r@),
    ;

    /// Merges one field read under the schema; `false` when the message refuses it.
    fn apply_field(&mut self, f: Field) -> (ok: bool)
        requires
            Self::encodable(old(self)@),
            read_field_ok(Self::schema(), f@),
        ensures
            ok == (Self::step()(old(self)@, f@) is Some),
            ok ==> final(self)@ == Self::step()(old(self)@, f@).unwrap() && Self::encodable(final(self)@),
    ;

    /// The fields the writer emits for the message.
    fn to_fields(&self) -> (r: Vec<Field>)
        requires
            Self::encodable(self@),
        ensures
            fields_view(r@) == Self::fields_of(self@),
    ;

    /// The writer's fields for an encodable message are canonical, and merging
    /// them from an empty message rebuilds the message.
    proof fn lemma_fields_roundtrip(m: Self::V)
        requires
            Self::encodable(m),
        ensures
            canonical_fields(Self::schema(), Self::fields_of(m)),
            fold_fields(Self::step(), Self::empty(), Self::fields_of(m))
                == Some(m),
    ;
}

/// The message that `bytes` encode, if they are a valid encoding.
#[verifier::opaque]
pub open spec fn wire_decode<T: WireMessage>(bytes: Seq<u8>) -> Option<T::V> {
    match fields_read(T::schema(), bytes) {
        Some(fs) => fold_fields(T::step(), T::empty(), fs),
        None => None,
    }
}

/// The wire bytes of a message.
#[verifier::opaque]
pub open spec fn wire_encode<T: WireMessage>(m: T::V) -> Seq<u8> {
    fields_bytes(T::fields_of(m))
}

/// Reading back the bytes written for an encodable message gives the message.
pub proof fn lemma_wire_roundtrip<T: WireMessage>(m: T::V)
    requires
        T::encodable(m),
    ensures
        wire_decode::<T>(wire_encode::<T>(m)) == Some(m),
{
    reveal(wire_decode);
    reveal(wire_encode);
    T::lemma_fields_roundtrip(m);
    lemma_fields_roundtrip(T::schema(), T::fields_of(m));
}

/// Reads the message that `bytes` encode, merging its fields in order.
pub fn decode<T: WireMessage>(bytes: &[u8]) -> (r: Result<T, ProtocolError>)
    ensures
        match r {
            Ok(m) => wire_decode::<T>(bytes@) == Some(m@) && T::encodable(m@),
            Err(e) => wire_decode::<T>(bytes@) is None && e is Decode,
        },
{
    reveal(wire_decode);
    let schema = T::schema_vec();
    let mut fs = match read_fields(&schema, bytes) {
        Some(fs) => fs,
        None => return Err(ProtocolError::Decode),
    };
    let ghost all = fields_view(fs@);
    proof {
        lemma_fields_read_ok(T::schema(), bytes@);
    }
    let mut m = T::new_empty();
    let ghost mut k: int = 0;
    assert(all.take(0) =~= Seq::<FieldV>::empty());
    while fs.len() > 0
        invariant
            0 <= k <= all.len(),
            fields_read(T::schema(), bytes@) == Some(all),
            fields_view(fs@) == all.skip(k),
            fold_fields(T::step(), T::empty(), all.take(k)) == Some(m@),
            T::encodable(m@),
            forall|i: int| 0 <= i < all.len() ==> read_field_ok(T::schema(), #[trigger] all[i]),
        decreases fs@.len(),
    {
        proof {
            assert(fields_view(fs@).len() == fs@.len());
            assert(fields_view(fs@)[0] == fs@[0]@);
        }
        let ghost old_fs = fs@;
        let f = fs.remove(0);
        proof {
            assert(f@ == all[k]);
            assert(all.take(k + 1).drop_last() =~= all.take(k));
            assert forall|i: int| 0 <= i < fs@.len() implies #[trigger] fields_view(fs@)[i] == all.skip(
                k + 1,
            )[i] by {
                assert(fs@[i] == old_fs[i + 1]);
                assert(fields_view(old_fs)[i + 1] == all.skip(k)[i + 1]);
            }
            assert(fields_view(fs@) =~= all.skip(k + 1));
        }
        if !m.apply_field(f) {
            proof {
                assert(all.take(k + 1).last() == all[k]);
                assert(fold_fields(T::step(), T::empty(), all.take(k + 1)) is None);
                lemma_fold_none_prefix(T::step(), T::empty(), all, k + 1);
                assert(all.take(all.len() as int) =~= all);
                assert(fold_fields(T::step(), T::empty(), all) is None);
                assert(fields_read(T::schema(), bytes@) == Some(all));
                reveal(wire_decode);
                assert(wire_decode::<T>(bytes@) is None);
            }
            return Err(ProtocolError::Decode);
        }
        proof {
            k = k + 1;
        }
    }
    assert(all.take(k) =~= all);
    Ok(m)
}

/// Once a prefix of the fields is refused, the whole run is.
pub proof fn lemma_fold_none_prefix<M>(apply: spec_fn(M, FieldV) -> Option<M>, init: M, fs: Seq<FieldV>, k: int)
    requires
        0 <= k <= fs.len(),
        fold_fields(apply, init, fs.take(k)) is None,
    ensures
        fold_fields(apply, init, fs.take(fs.len() as int)) is None,
    decreases fs.len() - k,
{
    if k < fs.len() {
        assert(fs.take(k + 1).drop_last() =~= fs.take(k));
        lemma_fold_none_prefix(apply, init, fs, k + 1);
    }
}

/// Writes the wire bytes of a message; writing cannot fail.
pub fn encode<T: WireMessage>(message: &T) -> (r: Result<Vec<u8>, ProtocolError>)
    requires
        T::encodable(message@),
    ensures
        r matches Ok(b) && b@ == wire_encode::<T>(message@),
{
    reveal(wire_encode);
    let fs = message.to_fields();
    proof {
        T::lemma_fields_roundtrip(message@);
        assert forall|i: int| 0 <= i < fields_view(fs@).len() implies writable_field(
            #[trigger] fields_view(fs@)[i],
        ) by {
            assert(canonical_field(T::schema(), T::fields_of(message@)[i]));
        }
    }
    let mut out: Vec<u8> = Vec::new();
    write_fields(&mut out, &fs);
    assert(out@ =~= wire_encode::<T>(message@));
    Ok(out)
}

// ---------------------------------------------------------------------------
// Field helpers shared by the messages
// ---------------------------------------------------------------------------

/// The optional string field `number`.
pub open spec fn opt_str_field(number: u32, v: Option<Seq<char>>) -> Seq<FieldV> {
    match v {
        Some(c) => seq![FieldV { number, value: FieldValueV::Str(c) }],
        None => Seq::empty(),
    }
}

/// The optional bool field `number`.
pub open spec fn opt_bool_field(number: u32, v: Option<bool>) -> Seq<FieldV> {
    match v {
        Some(b) => seq![FieldV { number, value: FieldValueV::Bool(b) }],
        None => Seq::empty(),
    }
}

/// The optional uint64 field `number`.
pub open spec fn opt_u64_field(number: u32, v: Option<u64>) -> Seq<FieldV> {
    match v {
        Some(x) => seq![FieldV { number, value: FieldValueV::U64(x) }],
        None => Seq::empty(),
    }
}

/// The optional enum field `number`, written as its `int32` value.
pub open spec fn opt_i32_field(number: u32, v: Option<i32>) -> Seq<FieldV> {
    match v {
        Some(x) => seq![FieldV { number, value: FieldValueV::I32(x) }],
        None => Seq::empty(),
    }
}

/// A copy of a field.
pub fn clone_field(f: &Field) -> (r: Field)
    ensures
        r@ == f@,
{
    let value = match &f.value {
        FieldValue::Str(s) => FieldValue::Str(s.clone()),
        FieldValue::Bool(b) => FieldValue::Bool(*b),
        FieldValue::U64(v) => FieldValue::U64(*v),
        FieldValue::I32(v) => FieldValue::I32(*v),
        FieldValue::U32s(v) => FieldValue::U32s(v.clone()),
        FieldValue::Unknown(u) => FieldValue::Unknown(
            match u {
                UnknownValue::Fixed32(x) => UnknownValue::Fixed32(*x),
                UnknownValue::Fixed64(x) => UnknownValue::Fixed64(*x),
                UnknownValue::Varint(x) => UnknownValue::Varint(*x),
                UnknownValue::LengthDelimited(b) => UnknownValue::LengthDelimited(b.clone()),
            },
        ),
        FieldValue::Skipped => FieldValue::Skipped,
    };
    Field { number: f.number, value }
}

/// A copy of a list of fields.
pub fn clone_fields(fs: &Vec<Field>) -> (r: Vec<Field>)
    ensures
        fields_view(r@) == fields_view(fs@),
{
    let mut out: Vec<Field> = Vec::new();
    let mut i: usize = 0;
    while i < fs.len()
        invariant
            i <= fs@.len(),
            out@.len() == i,
            forall|j: int| 0 <= j < i ==> (#[trigger] out@[j])@ == fs@[j]@,
        decreases fs@.len() - i,
    {
        let f = clone_field(&fs[i]);
        out.push(f);
        i = i + 1;
    }
    assert(fields_view(out@) =~= fields_view(fs@));
    out
}

/// Appends the fields of `b` to `a`, leaving `b` empty.
pub fn append_fields(a: &mut Vec<Field>, b: &mut Vec<Field>)
    ensures
        fields_view(final(a)@) == fields_view(old(a)@) + fields_view(old(b)@),
{
    a.append(b);
    assert(fields_view(a@) =~= fields_view(old(a)@) + fields_view(old(b)@));
}


/// Folding over a single field is applying it.
pub proof fn lemma_fold_one<M>(apply: spec_fn(M, FieldV) -> Option<M>, init: M, f: FieldV)
    ensures
        fold_fields(apply, init, seq![f]) == apply(init, f),
{
    assert(seq![f].drop_last() =~= Seq::<FieldV>::empty());
    assert(fold_fields(apply, init, Seq::<FieldV>::empty()) == Some(init));
    assert(seq![f].last() == f);
}

// ---------------------------------------------------------------------------
// Header
// ---------------------------------------------------------------------------

/// The fields of a header: `message_id` (1, string), `route_info` (2, bool),
/// `txn` (3, bool).
pub open spec fn header_schema() -> Seq<(u32, FieldKind)> {
    seq![(1u32, FieldKind::Str), (2u32, FieldKind::Bool), (3u32, FieldKind::Bool)]
}

fn header_schema_vec() -> (r: Vec<(u32, FieldKind)>)
    ensures
        r@ == header_schema(),
{
    let mut v: Vec<(u32, FieldKind)> = Vec::new();
    v.push((1, FieldKind::Str));
    v.push((2, FieldKind::Bool));
    v.push((3, FieldKind::Bool));
    assert(v@ =~= header_schema());
    v
}

/// The header frame of a routed message: its message id, and whether a
/// routing frame and a transaction frame follow.
pub struct Header {
    message_id: Option<String>,
    route_info: Option<bool>,
    txn: Option<bool>,
    unknown: Vec<Field>,
}

/// The mathematical value of a [`Header`]; a field is `None` when it is unset.
pub struct HeaderV {
    pub message_id: Option<Seq<char>>,
    pub route_info: Option<bool>,
    pub txn: Option<bool>,
    pub unknown: Seq<FieldV>,
}

impl View for Header {
    type V = HeaderV;

    closed spec fn view(&self) -> HeaderV {
        HeaderV {
            message_id: match self.message_id {
                Some(s) => Some(s@),
                None => None,
            },
            route_info: self.route_info,
            txn: self.txn,
            unknown: fields_view(self.unknown@),
        }
    }
}

/// The header with no field set.
pub open spec fn header_empty() -> HeaderV {
    HeaderV { message_id: None, route_info: None, txn: None, unknown: Seq::empty() }
}

/// Merges one field into a header: a named field sets its value, an unknown
/// value is kept in its place among the unknown fields (see
/// [`unknown_insert`]), a skipped group changes nothing.
pub open spec fn header_apply(h: HeaderV, f: FieldV) -> Option<HeaderV> {
    if f.number == 1 {
        match f.value {
            FieldValueV::Str(c) => Some(HeaderV { message_id: Some(c), ..h }),
            _ => None,
        }
    } else if f.number == 2 {
        match f.value {
            FieldValueV::Bool(b) => Some(HeaderV { route_info: Some(b), ..h }),
            _ => None,
        }
    } else if f.number == 3 {
        match f.value {
            FieldValueV::Bool(b) => Some(HeaderV { txn: Some(b), ..h }),
            _ => None,
        }
    } else {
        match f.value {
            FieldValueV::Unknown(_) => Some(HeaderV { unknown: unknown_insert(h.unknown, f), ..h }),
            FieldValueV::Skipped => Some(h),
            _ => None,
        }
    }
}

/// A header whose fields can be written and read back.
pub open spec fn header_encodable(h: HeaderV) -> bool {
    &&& (h.message_id matches Some(c) ==> encode_utf8(c).len() < two_pow_32())
    &&& unknown_fields_ok(header_schema(), h.unknown)
}

/// The fields the writer emits for a header, in field-number order, then its unknown fields.
pub open spec fn header_fields(h: HeaderV) -> Seq<FieldV> {
    opt_str_field(1, h.message_id) + opt_bool_field(2, h.route_info) + opt_bool_field(3, h.txn)
        + h.unknown
}

proof fn lemma_header_kinds(n: u32)
    ensures
        kind_in(header_schema(), 1) == FieldKind::Str,
        kind_in(header_schema(), 2) == FieldKind::Bool,
        kind_in(header_schema(), 3) == FieldKind::Bool,
        kind_in(header_schema(), n) == FieldKind::Other ==> n != 1 && n != 2 && n != 3,
        kind_in(header_schema(), n) == FieldKind::Str ==> n == 1,
        kind_in(header_schema(), n) == FieldKind::Bool ==> n == 2 || n == 3,
        kind_in(header_schema(), n) != FieldKind::U64,
        kind_in(header_schema(), n) != FieldKind::I32,
        kind_in(header_schema(), n) != FieldKind::RepeatedU32,
{
    reveal_with_fuel(kind_in, 4);
}

proof fn lemma_header_unknowns(h: HeaderV, u: Seq<FieldV>)
    requires
        unknown_fields_ok(header_schema(), u),
        unknown_sorted(h.unknown + u),
    ensures
        fold_fields(Header::step(), h, u) == Some(HeaderV { unknown: h.unknown + u, ..h }),
    decreases u.len(),
{
    if u.len() == 0 {
        assert(h.unknown + u =~= h.unknown);
    } else {
        let f = u.last();
        lemma_unknown_drop_last(header_schema(), u);
        lemma_header_kinds(f.number);
        lemma_unknown_sorted_prefix(h.unknown, u);
        lemma_header_unknowns(h, u.drop_last());
        lemma_unknown_insert_in_order(h.unknown + u.drop_last(), f);
    }
}

impl WireMessage for Header {
    open spec fn schema() -> Seq<(u32, FieldKind)> {
        header_schema()
    }

    open spec fn empty() -> HeaderV {
        header_empty()
    }

    open spec fn step() -> spec_fn(HeaderV, FieldV) -> Option<HeaderV> {
        |h: HeaderV, f: FieldV| header_apply(h, f)
    }

    open spec fn fields_of(m: HeaderV) -> Seq<FieldV> {
        header_fields(m)
    }

    open spec fn encodable(m: HeaderV) -> bool {
        header_encodable(m)
    }

    fn schema_vec() -> (r: Vec<(u32, FieldKind)>) {
        header_schema_vec()
    }

    fn new_empty() -> (r: Header) {
        let unknown: Vec<Field> = Vec::new();
        assert(fields_view(unknown@) =~= Seq::<FieldV>::empty());
        Header { message_id: None, route_info: None, txn: None, unknown }
    }

    fn apply_field(&mut self, f: Field) -> (ok: bool) {
        proof {
            use_type_invariant(&*self);
        }
        proof {
            lemma_header_kinds(f.number);
        }
        let ghost before = self@;
        let ghost fv = f@;
        match f.value {
            FieldValue::Str(v) => {
                self.message_id = Some(v);
            },
            FieldValue::Bool(b) => {
                if f.number == 2 {
                    self.route_info = Some(b);
                } else {
                    self.txn = Some(b);
                }
            },
            FieldValue::Unknown(u) => {
                let g = Field { number: f.number, value: FieldValue::Unknown(u) };
                assert(g@ == fv);
                let mut kept: Vec<Field> = Vec::new();
                std::mem::swap(&mut kept, &mut self.unknown);
                insert_unknown(&mut kept, g);
                proof {
                    lemma_unknown_insert(header_schema(), before.unknown, g@);
                }
                self.unknown = kept;
            },
            _ => {},
        }
        true
    }

    fn to_fields(&self) -> (r: Vec<Field>) {
        let mut fs: Vec<Field> = Vec::new();
        match &self.message_id {
            Some(v) => fs.push(Field { number: 1, value: FieldValue::Str(v.clone()) }),
            None => {},
        }
        match self.route_info {
            Some(b) => fs.push(Field { number: 2, value: FieldValue::Bool(b) }),
            None => {},
        }
        match self.txn {
            Some(b) => fs.push(Field { number: 3, value: FieldValue::Bool(b) }),
            None => {},
        }
        assert(fields_view(fs@) =~= opt_str_field(1, self@.message_id) + opt_bool_field(2, self@.route_info)
            + opt_bool_field(3, self@.txn));
        let mut unknown = clone_fields(&self.unknown);
        append_fields(&mut fs, &mut unknown);
        assert(fields_view(fs@) =~= header_fields(self@));
        fs
    }

    proof fn lemma_fields_roundtrip(m: HeaderV) {
        lemma_header_kinds(1);
        let a1 = opt_str_field(1, m.message_id);
        let a2 = opt_bool_field(2, m.route_info);
        let a3 = opt_bool_field(3, m.txn);
        let e = header_empty();
        lemma_fold_concat(Self::step(), e, a1 + a2 + a3, m.unknown);
        lemma_fold_concat(Self::step(), e, a1 + a2, a3);
        lemma_fold_concat(Self::step(), e, a1, a2);
        if m.message_id is Some {
            lemma_fold_one(Self::step(), e, a1[0]);
        } else {
            assert(fold_fields(Self::step(), e, a1) == Some(e));
        }
        let h1 = fold_fields(Self::step(), e, a1).unwrap();
        if m.route_info is Some {
            lemma_fold_one(Self::step(), h1, a2[0]);
        }
        let h2 = fold_fields(Self::step(), h1, a2).unwrap();
        if m.txn is Some {
            lemma_fold_one(Self::step(), h2, a3[0]);
        }
        let h3 = fold_fields(Self::step(), h2, a3).unwrap();
        assert(h3 == HeaderV { unknown: Seq::empty(), ..m });
        lemma_header_unknowns(h3, m.unknown);
        assert(Seq::<FieldV>::empty() + m.unknown =~= m.unknown);
        lemma_unknown_canonical(header_schema(), m.unknown);
        assert(canonical_fields(header_schema(), a1 + a2 + a3)) by {
            assert forall|i: int| 0 <= i < (a1 + a2 + a3).len() implies canonical_field(
                header_schema(),
                #[trigger] (a1 + a2 + a3)[i],
            ) by {}
        }
        lemma_canonical_concat(header_schema(), a1 + a2 + a3, m.unknown);
    }
}


impl Header {
    /// Every header can be written and read back.
    #[verifier::type_invariant]
    spec fn wf(self) -> bool {
        header_encodable(self@)
    }

    /// Reads a header from its wire bytes.
    pub fn from_bytes(bytes: &[u8]) -> (r: Result<Header, ProtocolError>)
        ensures
            match r {
                Ok(h) => wire_decode::<Header>(bytes@) == Some(h@) && header_encodable(h@),
                Err(e) => wire_decode::<Header>(bytes@) is None && e is Decode,
            },
    {
        decode::<Header>(bytes)
    }

    /// The header's message id; empty when unset.
    pub fn message_id(&self) -> (r: &str)
        ensures
            r@ == match self@.message_id {
                Some(c) => c,
                None => Seq::<char>::empty(),
            },
    {
        match &self.message_id {
            Some(s) => s.as_str(),
            None => {
                proof {
                    reveal_strlit("");
                }
                ""
            },
        }
    }

    /// Whether the header says that a routing frame follows (the flag is set,
    /// whatever its value).
    pub fn has_route_info(&self) -> (r: bool)
        ensures
            r == self@.route_info is Some,
    {
        self.route_info.is_some()
    }

    /// Whether the header says that a transaction frame follows (the flag is
    /// set, whatever its value).
    pub fn has_txn(&self) -> (r: bool)
        ensures
            r == self@.txn is Some,
    {
        self.txn.is_some()
    }

    /// Writes the header as wire bytes; writing cannot fail.
    pub fn to_bytes(&self) -> (r: Result<Vec<u8>, ProtocolError>)
        ensures
            r matches Ok(b) && b@ == wire_encode::<Header>(self@),
    {
        proof {
            use_type_invariant(self);
        }
        encode::<Header>(self)
    }

    /// Unsets every field.
    pub fn clear(&mut self)
        ensures
            final(self)@ == header_empty(),
    {
        proof {
            use_type_invariant(&*self);
        }
        self.message_id = None;
        self.route_info = None;
        self.txn = None;
        let unknown: Vec<Field> = Vec::new();
        assert(fields_view(unknown@) =~= Seq::<FieldV>::empty());
        self.unknown = unknown;
    }

    /// A header with the given message id and flags, and no unknown field.
    pub fn new(message_id: Option<String>, route_info: Option<bool>, txn: Option<bool>) -> (r: Header)
        requires
            message_id matches Some(s) ==> encode_utf8(s@).len() < two_pow_32(),
        ensures
            r@ == (HeaderV {
                message_id: match message_id {
                    Some(s) => Some(s@),
                    None => None,
                },
                route_info,
                txn,
                unknown: Seq::empty(),
            }),
    {
        let unknown: Vec<Field> = Vec::new();
        assert(fields_view(unknown@) =~= Seq::<FieldV>::empty());
        Header { message_id, route_info, txn, unknown }
    }
}

impl Default for Header {
    fn default() -> (r: Header)
        ensures
            r@ == header_empty(),
    {
        Header::new_empty()
    }
}

// ---------------------------------------------------------------------------
// Protocols and error codes
// ---------------------------------------------------------------------------

/// The service protocols that messages belong to.
#[derive(PartialEq, Eq, Structural, Clone, Copy, Debug, Hash)]
pub enum Protocol {
    Net,
    RouteSrv,
    SessionSrv,
    OriginSrv,
    JobSrv,
    Scheduler,
}

/// The wire number of a protocol.
pub open spec fn protocol_number(p: Protocol) -> i32 {
    match p {
        Protocol::Net => 0,
        Protocol::RouteSrv => 1,
        Protocol::SessionSrv => 2,
        Protocol::OriginSrv => 3,
        Protocol::JobSrv => 4,
        Protocol::Scheduler => 5,
    }
}

/// The protocol with a wire number, if any.
pub open spec fn protocol_of_number(v: i32) -> Option<Protocol> {
    if v == 0 {
        Some(Protocol::Net)
    } else if v == 1 {
        Some(Protocol::RouteSrv)
    } else if v == 2 {
        Some(Protocol::SessionSrv)
    } else if v == 3 {
        Some(Protocol::OriginSrv)
    } else if v == 4 {
        Some(Protocol::JobSrv)
    } else if v == 5 {
        Some(Protocol::Scheduler)
    } else {
        None
    }
}

impl Protocol {
    /// The protocol's wire number.
    pub fn value(&self) -> (r: i32)
        ensures
            r == protocol_number(*self),
    {
        match self {
            Protocol::Net => 0,
            Protocol::RouteSrv => 1,
            Protocol::SessionSrv => 2,
            Protocol::OriginSrv => 3,
            Protocol::JobSrv => 4,
            Protocol::Scheduler => 5,
        }
    }

    /// The protocol with wire number `v`, if any.
    pub fn from_i32(v: i32) -> (r: Option<Protocol>)
        ensures
            r == protocol_of_number(v),
    {
        if v == 0 {
            Some(Protocol::Net)
        } else if v == 1 {
            Some(Protocol::RouteSrv)
        } else if v == 2 {
            Some(Protocol::SessionSrv)
        } else if v == 3 {
            Some(Protocol::OriginSrv)
        } else if v == 4 {
            Some(Protocol::JobSrv)
        } else if v == 5 {
            Some(Protocol::Scheduler)
        } else {
            None
        }
    }
}

/// The error codes that a `NetError` reply carries.
#[allow(non_camel_case_types)]
#[derive(PartialEq, Eq, Structural, Clone, Copy, Debug)]
pub enum ErrCode {
    BUG,
    TIMEOUT,
    REMOTE_REJECTED,
    BAD_REMOTE_REPLY,
    ENTITY_NOT_FOUND,
    NO_SHARD,
    ACCESS_DENIED,
    SESSION_EXPIRED,
    ENTITY_CONFLICT,
    ZMQ,
    DATA_STORE,
    AUTH_SCOPE,
    REG_CONFLICT,
    REG_NOT_FOUND,
}

/// The wire number of an error code.
pub open spec fn err_code_number(c: ErrCode) -> i32 {
    match c {
        ErrCode::BUG => 0,
        ErrCode::TIMEOUT => 1,
        ErrCode::REMOTE_REJECTED => 2,
        ErrCode::BAD_REMOTE_REPLY => 3,
        ErrCode::ENTITY_NOT_FOUND => 4,
        ErrCode::NO_SHARD => 6,
        ErrCode::ACCESS_DENIED => 7,
        ErrCode::SESSION_EXPIRED => 8,
        ErrCode::ENTITY_CONFLICT => 9,
        ErrCode::ZMQ => 10,
        ErrCode::DATA_STORE => 11,
        ErrCode::AUTH_SCOPE => 12,
        ErrCode::REG_CONFLICT => 13,
        ErrCode::REG_NOT_FOUND => 14,
    }
}

/// The error code with a wire number, if any.
pub open spec fn err_code_of_number(v: i32) -> Option<ErrCode> {
    if v == 0 {
        Some(ErrCode::BUG)
    } else if v == 1 {
        Some(ErrCode::TIMEOUT)
    } else if v == 2 {
        Some(ErrCode::REMOTE_REJECTED)
    } else if v == 3 {
        Some(ErrCode::BAD_REMOTE_REPLY)
    } else if v == 4 {
        Some(ErrCode::ENTITY_NOT_FOUND)
    } else if v == 6 {
        Some(ErrCode::NO_SHARD)
    } else if v == 7 {
        Some(ErrCode::ACCESS_DENIED)
    } else if v == 8 {
        Some(ErrCode::SESSION_EXPIRED)
    } else if v == 9 {
        Some(ErrCode::ENTITY_CONFLICT)
    } else if v == 10 {
        Some(ErrCode::ZMQ)
    } else if v == 11 {
        Some(ErrCode::DATA_STORE)
    } else if v == 12 {
        Some(ErrCode::AUTH_SCOPE)
    } else if v == 13 {
        Some(ErrCode::REG_CONFLICT)
    } else if v == 14 {
        Some(ErrCode::REG_NOT_FOUND)
    } else {
        None
    }
}

impl ErrCode {
    /// The code's wire number.
    pub fn value(&self) -> (r: i32)
        ensures
            r == err_code_number(*self),
    {
        match self {
            ErrCode::BUG => 0,
            ErrCode::TIMEOUT => 1,
            ErrCode::REMOTE_REJECTED => 2,
            ErrCode::BAD_REMOTE_REPLY => 3,
            ErrCode::ENTITY_NOT_FOUND => 4,
            ErrCode::NO_SHARD => 6,
            ErrCode::ACCESS_DENIED => 7,
            ErrCode::SESSION_EXPIRED => 8,
            ErrCode::ENTITY_CONFLICT => 9,
            ErrCode::ZMQ => 10,
            ErrCode::DATA_STORE => 11,
            ErrCode::AUTH_SCOPE => 12,
            ErrCode::REG_CONFLICT => 13,
            ErrCode::REG_NOT_FOUND => 14,
        }
    }

    /// The code with wire number `v`, if any.
    pub fn from_i32(v: i32) -> (r: Option<ErrCode>)
        ensures
            r == err_code_of_number(v),
    {
        if v == 0 {
            Some(ErrCode::BUG)
        } else if v == 1 {
            Some(ErrCode::TIMEOUT)
        } else if v == 2 {
            Some(ErrCode::REMOTE_REJECTED)
        } else if v == 3 {
            Some(ErrCode::BAD_REMOTE_REPLY)
        } else if v == 4 {
            Some(ErrCode::ENTITY_NOT_FOUND)
        } else if v == 6 {
            Some(ErrCode::NO_SHARD)
        } else if v == 7 {
            Some(ErrCode::ACCESS_DENIED)
        } else if v == 8 {
            Some(ErrCode::SESSION_EXPIRED)
        } else if v == 9 {
            Some(ErrCode::ENTITY_CONFLICT)
        } else if v == 10 {
            Some(ErrCode::ZMQ)
        } else if v == 11 {
            Some(ErrCode::DATA_STORE)
        } else if v == 12 {
            Some(ErrCode::AUTH_SCOPE)
        } else if v == 13 {
            Some(ErrCode::REG_CONFLICT)
        } else if v == 14 {
            Some(ErrCode::REG_NOT_FOUND)
        } else {
            None
        }
    }
}

/// The optional protocol as its optional wire number.
pub open spec fn opt_protocol_number(p: Option<Protocol>) -> Option<i32> {
    match p {
        Some(x) => Some(protocol_number(x)),
        None => None,
    }
}

/// The optional error code as its optional wire number.
pub open spec fn opt_err_code_number(c: Option<ErrCode>) -> Option<i32> {
    match c {
        Some(x) => Some(err_code_number(x)),
        None => None,
    }
}

/// Unknown fields stay valid when one more is kept.
pub proof fn lemma_unknown_insert(schema: Seq<(u32, FieldKind)>, u: Seq<FieldV>, f: FieldV)
    requires
        unknown_fields_ok(schema, u),
        read_field_ok(schema, f),
        f.value is Unknown,
    ensures
        unknown_fields_ok(schema, unknown_insert(u, f)),
{
    let p = |x: FieldV| read_field_ok(schema, x) && x.value is Unknown;
    assert forall|i: int| 0 <= i < u.len() implies p(#[trigger] u[i]) by {
        assert(read_field_ok(schema, u[i]));
    }
    lemma_unknown_insert_elements(u, f, p);
    lemma_unknown_insert_sorted(u, f);
    let r = unknown_insert(u, f);
    assert forall|i: int| 0 <= i < r.len() implies {
        &&& read_field_ok(schema, #[trigger] r[i])
        &&& r[i].value is Unknown
    } by {
        assert(p(r[i]));
    }
}

/// A prefix of valid unknown fields is valid.
pub proof fn lemma_unknown_drop_last(schema: Seq<(u32, FieldKind)>, u: Seq<FieldV>)
    requires
        unknown_fields_ok(schema, u),
        u.len() > 0,
    ensures
        unknown_fields_ok(schema, u.drop_last()),
        read_field_ok(schema, u.last()),
        u.last().value is Unknown,
{
    assert(read_field_ok(schema, u[u.len() - 1]));
    assert forall|i: int| 0 <= i < u.drop_last().len() implies {
        &&& read_field_ok(schema, #[trigger] u.drop_last()[i])
        &&& u.drop_last()[i].value is Unknown
    } by {
        assert(u.drop_last()[i] == u[i]);
    }
    lemma_unknown_sorted_prefix(Seq::empty(), u);
    assert(Seq::<FieldV>::empty() + u.drop_last() =~= u.drop_last());
}

// ---------------------------------------------------------------------------
// RouteInfo
// ---------------------------------------------------------------------------

/// The fields of the routing information: `protocol` (1, enum) and `hash` (2, uint64).
pub open spec fn route_info_schema() -> Seq<(u32, FieldKind)> {
    seq![(1u32, FieldKind::I32), (2u32, FieldKind::U64)]
}

/// The routing frame of a message: the protocol of the service it goes to,
/// and, optionally, the hash that picks the shard.
pub struct RouteInfo {
    protocol: Option<Protocol>,
    hash: Option<u64>,
    unknown: Vec<Field>,
}

/// The mathematical value of a [`RouteInfo`].
pub struct RouteInfoV {
    pub protocol: Option<Protocol>,
    pub hash: Option<u64>,
    pub unknown: Seq<FieldV>,
}

impl View for RouteInfo {
    type V = RouteInfoV;

    closed spec fn view(&self) -> RouteInfoV {
        RouteInfoV { protocol: self.protocol, hash: self.hash, unknown: fields_view(self.unknown@) }
    }
}

/// The routing information with no field set.
pub open spec fn route_info_empty() -> RouteInfoV {
    RouteInfoV { protocol: None, hash: None, unknown: Seq::empty() }
}

/// Merges one field into routing information; a protocol number that names
/// no protocol is refused.
pub open spec fn route_info_apply(r: RouteInfoV, f: FieldV) -> Option<RouteInfoV> {
    if f.number == 1 {
        match f.value {
            FieldValueV::I32(v) => match protocol_of_number(v) {
                Some(p) => Some(RouteInfoV { protocol: Some(p), ..r }),
                None => None,
            },
            _ => None,
        }
    } else if f.number == 2 {
        match f.value {
            FieldValueV::U64(h) => Some(RouteInfoV { hash: Some(h), ..r }),
            _ => None,
        }
    } else {
        match f.value {
            FieldValueV::Unknown(_) => Some(RouteInfoV { unknown: unknown_insert(r.unknown, f), ..r }),
            FieldValueV::Skipped => Some(r),
            _ => None,
        }
    }
}

/// The fields the writer emits for routing information.
pub open spec fn route_info_fields(r: RouteInfoV) -> Seq<FieldV> {
    opt_i32_field(1, opt_protocol_number(r.protocol)) + opt_u64_field(2, r.hash) + r.unknown
}

proof fn lemma_route_info_kinds(n: u32)
    ensures
        kind_in(route_info_schema(), 1) == FieldKind::I32,
        kind_in(route_info_schema(), 2) == FieldKind::U64,
        kind_in(route_info_schema(), n) == FieldKind::Other ==> n != 1 && n != 2,
        kind_in(route_info_schema(), n) == FieldKind::I32 ==> n == 1,
        kind_in(route_info_schema(), n) == FieldKind::U64 ==> n == 2,
        kind_in(route_info_schema(), n) != FieldKind::Str,
        kind_in(route_info_schema(), n) != FieldKind::Bool,
        kind_in(route_info_schema(), n) != FieldKind::RepeatedU32,
{
    reveal_with_fuel(kind_in, 3);
}

proof fn lemma_route_info_unknowns(r: RouteInfoV, u: Seq<FieldV>)
    requires
        unknown_fields_ok(route_info_schema(), u),
        unknown_sorted(r.unknown + u),
    ensures
        fold_fields(RouteInfo::step(), r, u) == Some(RouteInfoV { unknown: r.unknown + u, ..r }),
    decreases u.len(),
{
    if u.len() == 0 {
        assert(r.unknown + u =~= r.unknown);
    } else {
        lemma_unknown_drop_last(route_info_schema(), u);
        lemma_route_info_kinds(u.last().number);
        lemma_unknown_sorted_prefix(r.unknown, u);
        lemma_route_info_unknowns(r, u.drop_last());
        lemma_unknown_insert_in_order(r.unknown + u.drop_last(), u.last());
    }
}

impl WireMessage for RouteInfo {
    open spec fn schema() -> Seq<(u32, FieldKind)> {
        route_info_schema()
    }

    open spec fn empty() -> RouteInfoV {
        route_info_empty()
    }

    open spec fn step() -> spec_fn(RouteInfoV, FieldV) -> Option<RouteInfoV> {
        |r: RouteInfoV, f: FieldV| route_info_apply(r, f)
    }

    open spec fn fields_of(m: RouteInfoV) -> Seq<FieldV> {
        route_info_fields(m)
    }

    open spec fn encodable(m: RouteInfoV) -> bool {
        unknown_fields_ok(route_info_schema(), m.unknown)
    }

    fn schema_vec() -> (r: Vec<(u32, FieldKind)>) {
        let mut v: Vec<(u32, FieldKind)> = Vec::new();
        v.push((1, FieldKind::I32));
        v.push((2, FieldKind::U64));
        assert(v@ =~= route_info_schema());
        v
    }

    fn new_empty() -> (r: RouteInfo) {
        let unknown: Vec<Field> = Vec::new();
        assert(fields_view(unknown@) =~= Seq::<FieldV>::empty());
        RouteInfo { protocol: None, hash: None, unknown }
    }

    fn apply_field(&mut self, f: Field) -> (ok: bool) {
        proof {
            use_type_invariant(&*self);
        }
        proof {
            lemma_route_info_kinds(f.number);
        }
        let ghost before = self@;
        let ghost fv = f@;
        match f.value {
            FieldValue::I32(v) => {
                match Protocol::from_i32(v) {
                    Some(p) => {
                        self.protocol = Some(p);
                        true
                    },
                    None => false,
                }
            },
            FieldValue::U64(h) => {
                self.hash = Some(h);
                true
            },
            FieldValue::Unknown(u) => {
                let g = Field { number: f.number, value: FieldValue::Unknown(u) };
                assert(g@ == fv);
                let mut kept: Vec<Field> = Vec::new();
                std::mem::swap(&mut kept, &mut self.unknown);
                insert_unknown(&mut kept, g);
                proof {
                    lemma_unknown_insert(route_info_schema(), before.unknown, g@);
                }
                self.unknown = kept;
                true
            },
            _ => true,
        }
    }

    fn to_fields(&self) -> (r: Vec<Field>) {
        let mut fs: Vec<Field> = Vec::new();
        match self.protocol {
            Some(p) => fs.push(Field { number: 1, value: FieldValue::I32(p.value()) }),
            None => {},
        }
        match self.hash {
            Some(h) => fs.push(Field { number: 2, value: FieldValue::U64(h) }),
            None => {},
        }
        assert(fields_view(fs@) =~= opt_i32_field(1, opt_protocol_number(self@.protocol))
            + opt_u64_field(2, self@.hash));
        let mut unknown = clone_fields(&self.unknown);
        append_fields(&mut fs, &mut unknown);
        assert(fields_view(fs@) =~= route_info_fields(self@));
        fs
    }

    proof fn lemma_fields_roundtrip(m: RouteInfoV) {
        lemma_route_info_kinds(1);
        let a1 = opt_i32_field(1, opt_protocol_number(m.protocol));
        let a2 = opt_u64_field(2, m.hash);
        let e = route_info_empty();
        lemma_fold_concat(Self::step(), e, a1 + a2, m.unknown);
        lemma_fold_concat(Self::step(), e, a1, a2);
        if m.protocol is Some {
            lemma_fold_one(Self::step(), e, a1[0]);
        } else {
            assert(fold_fields(Self::step(), e, a1) == Some(e));
        }
        let r1 = fold_fields(Self::step(), e, a1).unwrap();
        if m.hash is Some {
            lemma_fold_one(Self::step(), r1, a2[0]);
        }
        let r2 = fold_fields(Self::step(), r1, a2).unwrap();
        assert(r2 == RouteInfoV { unknown: Seq::empty(), ..m });
        lemma_route_info_unknowns(r2, m.unknown);
        assert(Seq::<FieldV>::empty() + m.unknown =~= m.unknown);
        lemma_unknown_canonical(route_info_schema(), m.unknown);
        assert(canonical_fields(route_info_schema(), a1 + a2)) by {
            assert forall|i: int| 0 <= i < (a1 + a2).len() implies canonical_field(
                route_info_schema(),
                #[trigger] (a1 + a2)[i],
            ) by {}
        }
        lemma_canonical_concat(route_info_schema(), a1 + a2, m.unknown);
    }
}

impl RouteInfo {
    /// Every routing frame can be written and read back.
    #[verifier::type_invariant]
    spec fn wf(self) -> bool {
        RouteInfo::encodable(self@)
    }

    /// Reads routing information from its wire bytes.
    pub fn from_bytes(bytes: &[u8]) -> (r: Result<RouteInfo, ProtocolError>)
        ensures
            match r {
                Ok(x) => wire_decode::<RouteInfo>(bytes@) == Some(x@) && RouteInfo::encodable(x@),
                Err(e) => wire_decode::<RouteInfo>(bytes@) is None && e is Decode,
            },
    {
        decode::<RouteInfo>(bytes)
    }

    /// The protocol; `Net` (the first) when unset.
    pub fn protocol(&self) -> (r: Protocol)
        ensures
            r == match self@.protocol {
                Some(p) => p,
                None => Protocol::Net,
            },
    {
        match self.protocol {
            Some(p) => p,
            None => Protocol::Net,
        }
    }

    /// The routing hash, when set.
    pub fn hash(&self) -> (r: Option<u64>)
        ensures
            r == self@.hash,
    {
        if self.hash.is_some() {
            Some(self.hash.unwrap())
        } else {
            None
        }
    }

    /// Writes the routing information as wire bytes; writing cannot fail.
    pub fn to_bytes(&self) -> (r: Result<Vec<u8>, ProtocolError>)
        ensures
            r matches Ok(b) && b@ == wire_encode::<RouteInfo>(self@),
    {
        proof {
            use_type_invariant(self);
        }
        encode::<RouteInfo>(self)
    }

    /// Unsets every field.
    pub fn clear(&mut self)
        ensures
            final(self)@ == route_info_empty(),
    {
        proof {
            use_type_invariant(&*self);
        }
        self.protocol = None;
        self.hash = None;
        let unknown: Vec<Field> = Vec::new();
        assert(fields_view(unknown@) =~= Seq::<FieldV>::empty());
        self.unknown = unknown;
    }

    /// Routing information for `protocol`, with an optional hash.
    pub fn new(protocol: Protocol, hash: Option<u64>) -> (r: RouteInfo)
        ensures
            r@ == (RouteInfoV { protocol: Some(protocol), hash, unknown: Seq::empty() }),
            RouteInfo::encodable(r@),
    {
        let unknown: Vec<Field> = Vec::new();
        assert(fields_view(unknown@) =~= Seq::<FieldV>::empty());
        RouteInfo { protocol: Some(protocol), hash, unknown }
    }
}

// ---------------------------------------------------------------------------
// Txn
// ---------------------------------------------------------------------------

/// The fields of a transaction: `id` (1, uint64) and `complete` (2, bool).
pub open spec fn txn_schema() -> Seq<(u32, FieldKind)> {
    seq![(1u32, FieldKind::U64), (2u32, FieldKind::Bool)]
}

/// The transaction frame of a message: an id, and whether the reply completes it.
pub struct Txn {
    id: Option<u64>,
    complete: Option<bool>,
    unknown: Vec<Field>,
}

/// The mathematical value of a [`Txn`].
pub struct TxnV {
    pub id: Option<u64>,
    pub complete: Option<bool>,
    pub unknown: Seq<FieldV>,
}

impl View for Txn {
    type V = TxnV;

    closed spec fn view(&self) -> TxnV {
        TxnV { id: self.id, complete: self.complete, unknown: fields_view(self.unknown@) }
    }
}

/// The transaction with no field set.
pub open spec fn txn_empty() -> TxnV {
    TxnV { id: None, complete: None, unknown: Seq::empty() }
}

/// Merges one field into a transaction.
pub open spec fn txn_apply(t: TxnV, f: FieldV) -> Option<TxnV> {
    if f.number == 1 {
        match f.value {
            FieldValueV::U64(v) => Some(TxnV { id: Some(v), ..t }),
            _ => None,
        }
    } else if f.number == 2 {
        match f.value {
            FieldValueV::Bool(b) => Some(TxnV { complete: Some(b), ..t }),
            _ => None,
        }
    } else {
        match f.value {
            FieldValueV::Unknown(_) => Some(TxnV { unknown: unknown_insert(t.unknown, f), ..t }),
            FieldValueV::Skipped => Some(t),
            _ => None,
        }
    }
}

/// The fields the writer emits for a transaction.
pub open spec fn txn_fields(t: TxnV) -> Seq<FieldV> {
    opt_u64_field(1, t.id) + opt_bool_field(2, t.complete) + t.unknown
}

proof fn lemma_txn_kinds(n: u32)
    ensures
        kind_in(txn_schema(), 1) == FieldKind::U64,
        kind_in(txn_schema(), 2) == FieldKind::Bool,
        kind_in(txn_schema(), n) == FieldKind::Other ==> n != 1 && n != 2,
        kind_in(txn_schema(), n) == FieldKind::U64 ==> n == 1,
        kind_in(txn_schema(), n) == FieldKind::Bool ==> n == 2,
        kind_in(txn_schema(), n) != FieldKind::Str,
        kind_in(txn_schema(), n) != FieldKind::I32,
        kind_in(txn_schema(), n) != FieldKind::RepeatedU32,
{
    reveal_with_fuel(kind_in, 3);
}

proof fn lemma_txn_unknowns(t: TxnV, u: Seq<FieldV>)
    requires
        unknown_fields_ok(txn_schema(), u),
        unknown_sorted(t.unknown + u),
    ensures
        fold_fields(Txn::step(), t, u) == Some(TxnV { unknown: t.unknown + u, ..t }),
    decreases u.len(),
{
    if u.len() == 0 {
        assert(t.unknown + u =~= t.unknown);
    } else {
        lemma_unknown_drop_last(txn_schema(), u);
        lemma_txn_kinds(u.last().number);
        lemma_unknown_sorted_prefix(t.unknown, u);
        lemma_txn_unknowns(t, u.drop_last());
        lemma_unknown_insert_in_order(t.unknown + u.drop_last(), u.last());
    }
}

impl WireMessage for Txn {
    open spec fn schema() -> Seq<(u32, FieldKind)> {
        txn_schema()
    }

    open spec fn empty() -> TxnV {
        txn_empty()
    }

    open spec fn step() -> spec_fn(TxnV, FieldV) -> Option<TxnV> {
        |t: TxnV, f: FieldV| txn_apply(t, f)
    }

    open spec fn fields_of(m: TxnV) -> Seq<FieldV> {
        txn_fields(m)
    }

    open spec fn encodable(m: TxnV) -> bool {
        unknown_fields_ok(txn_schema(), m.unknown)
    }

    fn schema_vec() -> (r: Vec<(u32, FieldKind)>) {
        let mut v: Vec<(u32, FieldKind)> = Vec::new();
        v.push((1, FieldKind::U64));
        v.push((2, FieldKind::Bool));
        assert(v@ =~= txn_schema());
        v
    }

    fn new_empty() -> (r: Txn) {
        let unknown: Vec<Field> = Vec::new();
        assert(fields_view(unknown@) =~= Seq::<FieldV>::empty());
        Txn { id: None, complete: None, unknown }
    }

    fn apply_field(&mut self, f: Field) -> (ok: bool) {
        proof {
            use_type_invariant(&*self);
        }
        proof {
            lemma_txn_kinds(f.number);
        }
        let ghost before = self@;
        let ghost fv = f@;
        match f.value {
            FieldValue::U64(v) => {
                self.id = Some(v);
            },
            FieldValue::Bool(b) => {
                self.complete = Some(b);
            },
            FieldValue::Unknown(u) => {
                let g = Field { number: f.number, value: FieldValue::Unknown(u) };
                assert(g@ == fv);
                let mut kept: Vec<Field> = Vec::new();
                std::mem::swap(&mut kept, &mut self.unknown);
                insert_unknown(&mut kept, g);
                proof {
                    lemma_unknown_insert(txn_schema(), before.unknown, g@);
                }
                self.unknown = kept;
            },
            _ => {},
        }
        true
    }

    fn to_fields(&self) -> (r: Vec<Field>) {
        let mut fs: Vec<Field> = Vec::new();
        match self.id {
            Some(v) => fs.push(Field { number: 1, value: FieldValue::U64(v) }),
            None => {},
        }
        match self.complete {
            Some(b) => fs.push(Field { number: 2, value: FieldValue::Bool(b) }),
            None => {},
        }
        assert(fields_view(fs@) =~= opt_u64_field(1, self@.id) + opt_bool_field(2, self@.complete));
        let mut unknown = clone_fields(&self.unknown);
        append_fields(&mut fs, &mut unknown);
        assert(fields_view(fs@) =~= txn_fields(self@));
        fs
    }

    proof fn lemma_fields_roundtrip(m: TxnV) {
        lemma_txn_kinds(1);
        let a1 = opt_u64_field(1, m.id);
        let a2 = opt_bool_field(2, m.complete);
        let e = txn_empty();
        lemma_fold_concat(Self::step(), e, a1 + a2, m.unknown);
        lemma_fold_concat(Self::step(), e, a1, a2);
        if m.id is Some {
            lemma_fold_one(Self::step(), e, a1[0]);
        } else {
            assert(fold_fields(Self::step(), e, a1) == Some(e));
        }
        let t1 = fold_fields(Self::step(), e, a1).unwrap();
        if m.complete is Some {
            lemma_fold_one(Self::step(), t1, a2[0]);
        }
        let t2 = fold_fields(Self::step(), t1, a2).unwrap();
        assert(t2 == TxnV { unknown: Seq::empty(), ..m });
        lemma_txn_unknowns(t2, m.unknown);
        assert(Seq::<FieldV>::empty() + m.unknown =~= m.unknown);
        lemma_unknown_canonical(txn_schema(), m.unknown);
        assert(canonical_fields(txn_schema(), a1 + a2)) by {
            assert forall|i: int| 0 <= i < (a1 + a2).len() implies canonical_field(
                txn_schema(),
                #[trigger] (a1 + a2)[i],
            ) by {}
        }
        lemma_canonical_concat(txn_schema(), a1 + a2, m.unknown);
    }
}

impl Txn {
    /// Every transaction frame can be written and read back.
    #[verifier::type_invariant]
    spec fn wf(self) -> bool {
        Txn::encodable(self@)
    }

    /// Reads a transaction from its wire bytes.
    pub fn from_bytes(bytes: &[u8]) -> (r: Result<Txn, ProtocolError>)
        ensures
            match r {
                Ok(x) => wire_decode::<Txn>(bytes@) == Some(x@) && Txn::encodable(x@),
                Err(e) => wire_decode::<Txn>(bytes@) is None && e is Decode,
            },
    {
        decode::<Txn>(bytes)
    }

    /// The transaction id; 0 when unset.
    pub fn id(&self) -> (r: u64)
        ensures
            r == match self@.id {
                Some(v) => v,
                None => 0,
            },
    {
        match self.id {
            Some(v) => v,
            None => 0,
        }
    }

    /// Whether the transaction is complete; `false` when unset.
    pub fn is_complete(&self) -> (r: bool)
        ensures
            r == match self@.complete {
                Some(b) => b,
                None => false,
            },
    {
        match self.complete {
            Some(b) => b,
            None => false,
        }
    }

    /// Sets whether the transaction is complete; nothing else changes.
    pub fn set_complete(&mut self, value: bool)
        ensures
            final(self)@ == (TxnV { complete: Some(value), ..old(self)@ }),
    {
        proof {
            use_type_invariant(&*self);
        }
        self.complete = Some(value);
    }

    /// Writes the transaction as wire bytes; writing cannot fail.
    pub fn to_bytes(&self) -> (r: Result<Vec<u8>, ProtocolError>)
        ensures
            r matches Ok(b) && b@ == wire_encode::<Txn>(self@),
    {
        proof {
            use_type_invariant(self);
        }
        encode::<Txn>(self)
    }

    /// Unsets every field.
    pub fn clear(&mut self)
        ensures
            final(self)@ == txn_empty(),
    {
        proof {
            use_type_invariant(&*self);
        }
        self.id = None;
        self.complete = None;
        let unknown: Vec<Field> = Vec::new();
        assert(fields_view(unknown@) =~= Seq::<FieldV>::empty());
        self.unknown = unknown;
    }

    /// A transaction with the given id and completion flag.
    pub fn new(id: Option<u64>, complete: Option<bool>) -> (r: Txn)
        ensures
            r@ == (TxnV { id, complete, unknown: Seq::empty() }),
            Txn::encodable(r@),
    {
        let unknown: Vec<Field> = Vec::new();
        assert(fields_view(unknown@) =~= Seq::<FieldV>::empty());
        Txn { id, complete, unknown }
    }
}


// ---------------------------------------------------------------------------
// Message
// ---------------------------------------------------------------------------

/// `String::from_utf8`: the string whose UTF-8 bytes are `bytes`, or, when
/// they are not valid UTF-8, the bytes back (`FromUtf8Error::into_bytes`).
#[verifier::external_body]
fn string_from_utf8(bytes: Vec<u8>) -> (r: Result<String, Vec<u8>>)
    ensures
        match r {
            Ok(s) => valid_utf8(bytes@) && s@ == decode_utf8(bytes@),
            Err(b) => !valid_utf8(bytes@) && b@ == bytes@,
        },
{
    match String::from_utf8(bytes) {
        Ok(s) => Ok(s),
        Err(e) => Err(e.into_bytes()),
    }
}

/// A routed message: the identities of the servers that handled it (starting
/// with its originator), its header, routing and transaction frames, and its body.
pub struct Message {
    /// The encoded body of the message; `parse` reads it as a protocol message.
    pub body: Vec<u8>,
    /// The network identities of the servers that handled the message, the
    /// originator first.
    pub identities: Vec<String>,
    header: Header,
    route_info: Option<RouteInfo>,
    txn: Option<Txn>,
}

/// The mathematical value of a [`Message`].
pub struct MessageV {
    pub body: Seq<u8>,
    pub identities: Seq<Seq<char>>,
    pub header: HeaderV,
    pub route_info: Option<RouteInfoV>,
    pub txn: Option<TxnV>,
}

/// The views of a list of strings.
pub open spec fn strings_view(v: Seq<String>) -> Seq<Seq<char>> {
    v.map_values(|s: String| s@)
}

impl View for Message {
    type V = MessageV;

    closed spec fn view(&self) -> MessageV {
        MessageV {
            body: self.body@,
            identities: strings_view(self.identities@),
            header: self.header@,
            route_info: match self.route_info {
                Some(r) => Some(r@),
                None => None,
            },
            txn: match self.txn {
                Some(t) => Some(t@),
                None => None,
            },
        }
    }
}

/// A message whose frames can all be written back: each frame is encodable.
pub open spec fn message_wf(m: MessageV) -> bool {
    &&& header_encodable(m.header)
    &&& (m.route_info matches Some(r) ==> RouteInfo::encodable(r))
    &&& (m.txn matches Some(t) ==> Txn::encodable(t))
}

/// The message with nothing in it.
pub open spec fn message_empty() -> MessageV {
    MessageV {
        body: Seq::empty(),
        identities: Seq::empty(),
        header: header_empty(),
        route_info: None,
        txn: None,
    }
}

/// The message's id, as its header gives it.
pub open spec fn message_id_of(m: MessageV) -> Seq<char> {
    match m.header.message_id {
        Some(c) => c,
        None => Seq::empty(),
    }
}

impl Message {
    /// The encoded body.
    pub fn body(&self) -> (r: &Vec<u8>)
        ensures
            r@ == self@.body,
    {
        &self.body
    }

    /// The identities of the servers that handled the message, the originator first.
    pub fn identities(&self) -> (r: &Vec<String>)
        ensures
            strings_view(r@) == self@.identities,
    {
        &self.identities
    }

    /// Replaces the body with `bytes`; nothing else changes.
    pub fn set_body_bytes(&mut self, bytes: Vec<u8>)
        ensures
            final(self)@ == (MessageV { body: bytes@, ..old(self)@ }),
    {
        self.body = bytes;
    }

    /// Clears every part of the message, so that it can be reused.
    pub fn reset(&mut self)
        ensures
            final(self)@ == message_empty(),
            message_wf(final(self)@),
    {
        self.identities.clear();
        self.header.clear();
        self.txn = None;
        self.route_info = None;
        self.body.clear();
        assert(strings_view(self.identities@) =~= Seq::<Seq<char>>::empty());
        assert(unknown_fields_ok(header_schema(), Seq::<FieldV>::empty()));
    }

    /// The header.
    pub fn header(&self) -> (r: &Header)
        ensures
            r@ == self@.header,
    {
        &self.header
    }

    /// The message id from the header; empty when unset.
    pub fn message_id(&self) -> (r: &str)
        ensures
            r@ == message_id_of(self@),
    {
        self.header.message_id()
    }

    /// Reads the body as a protocol message of type `T`.
    pub fn parse<T: WireMessage>(&self) -> (r: Result<T, ProtocolError>)
        ensures
            match r {
                Ok(m) => wire_decode::<T>(self@.body) == Some(m@) && T::encodable(m@),
                Err(e) => wire_decode::<T>(self@.body) is None && e is Decode,
            },
    {
        decode::<T>(self.body.as_slice())
    }

    /// The routing frame, if the message has one.
    pub fn route_info(&self) -> (r: Option<&RouteInfo>)
        ensures
            match r {
                Some(x) => self@.route_info == Some(x@),
                None => self@.route_info is None,
            },
    {
        self.route_info.as_ref()
    }

    /// The transaction frame, if the message has one.
    pub fn txn(&self) -> (r: Option<&Txn>)
        ensures
            match r {
                Some(x) => self@.txn == Some(x@),
                None => self@.txn is None,
            },
    {
        self.txn.as_ref()
    }

    /// The transaction frame, mutably, if the message has one.
    pub fn txn_mut(&mut self) -> (r: Option<&mut Txn>)
        ensures
            match r {
                Some(t) => old(self)@.txn == Some((*t)@) && final(self)@ == (MessageV {
                    txn: Some((*final(t))@),
                    ..old(self)@
                }),
                None => old(self)@.txn is None && final(self)@ == old(self)@,
            },
    {
        self.txn.as_mut()
    }

    /// The identity of the server that sent the message: the first identity;
    /// an error when the message has none.
    pub fn sender(&self) -> (r: Result<&str, ProtocolError>)
        ensures
            match r {
                Ok(s) => self@.identities.len() > 0 && s@ == self@.identities[0],
                Err(e) => self@.identities.len() == 0 && e is MsgNotInitialized,
            },
    {
        if self.identities.len() == 0 {
            Err(ProtocolError::MsgNotInitialized)
        } else {
            Ok(self.identities[0].as_str())
        }
    }

    /// Appends an identity frame: the UTF-8 decoding of `bytes`; an error,
    /// with the bytes, when they are not valid UTF-8, and then nothing changes.
    pub fn push_identity(&mut self, bytes: Vec<u8>) -> (r: Result<(), ProtocolError>)
        ensures
            match r {
                Ok(()) => valid_utf8(bytes@) && final(self)@ == (MessageV {
                    identities: old(self)@.identities.push(decode_utf8(bytes@)),
                    ..old(self)@
                }),
                Err(e) => !valid_utf8(bytes@) && final(self)@ == old(self)@ && (e matches ProtocolError::IdentityDecode(raw) && raw@ == bytes@),
            },
    {
        let ghost b = bytes@;
        match string_from_utf8(bytes) {
            Ok(identity) => {
                self.identities.push(identity);
                assert(strings_view(self.identities@) =~= strings_view(old(self).identities@).push(
                    decode_utf8(b),
                ));
                Ok(())
            },
            Err(raw) => {
                Err(ProtocolError::IdentityDecode(raw))
            },
        }
    }

    /// Sets the body to the wire bytes of `body`.
    pub fn set_body<T: WireMessage>(&mut self, body: &T) -> (r: Result<(), ProtocolError>)
        requires
            T::encodable(body@),
        ensures
            r is Ok,
            final(self)@ == (MessageV { body: wire_encode::<T>(body@), ..old(self)@ }),
    {
        let bytes = encode::<T>(body);
        match bytes {
            Ok(b) => {
                self.body = b;
                Ok(())
            },
            Err(e) => Err(e),
        }
    }

    /// Shows, for the proofs of its callers, that every part of the message
    /// can be written and read back, as the types of its parts keep it.
    pub fn prove_wf(&self)
        ensures
            message_wf(self@),
    {
        proof {
            use_type_invariant(&self.header);
        }
        match &self.route_info {
            Some(r) => {
                proof {
                    use_type_invariant(r);
                }
            },
            None => {},
        }
        match &self.txn {
            Some(t) => {
                proof {
                    use_type_invariant(t);
                }
            },
            None => {},
        }
    }

    /// Sets the header to the one `bytes` encode; on error nothing changes.
    pub fn set_header(&mut self, bytes: &[u8]) -> (r: Result<(), ProtocolError>)
        ensures
            message_wf(final(self)@),
            match r {
                Ok(()) => wire_decode::<Header>(bytes@) matches Some(h) && final(self)@ == (MessageV {
                    header: h,
                    ..old(self)@
                }),
                Err(e) => wire_decode::<Header>(bytes@) is None && e is Decode && final(self)@ == old(
                    self,
                )@,
            },
    {
        self.prove_wf();
        let h = Header::from_bytes(bytes)?;
        self.header = h;
        self.prove_wf();
        Ok(())
    }

    /// Sets the routing frame to the one `bytes` encode; on error nothing changes.
    pub fn set_routing(&mut self, bytes: &[u8]) -> (r: Result<(), ProtocolError>)
        ensures
            message_wf(final(self)@),
            match r {
                Ok(()) => wire_decode::<RouteInfo>(bytes@) matches Some(x) && final(self)@ == (
                MessageV { route_info: Some(x), ..old(self)@ }),
                Err(e) => wire_decode::<RouteInfo>(bytes@) is None && e is Decode && final(self)@ == old(
                    self,
                )@,
            },
    {
        self.prove_wf();
        let x = RouteInfo::from_bytes(bytes)?;
        self.route_info = Some(x);
        self.prove_wf();
        Ok(())
    }

    /// Sets the transaction frame to the one `bytes` encode; on error nothing changes.
    pub fn set_txn(&mut self, bytes: &[u8]) -> (r: Result<(), ProtocolError>)
        ensures
            message_wf(final(self)@),
            match r {
                Ok(()) => wire_decode::<Txn>(bytes@) matches Some(x) && final(self)@ == (MessageV {
                    txn: Some(x),
                    ..old(self)@
                }),
                Err(e) => wire_decode::<Txn>(bytes@) is None && e is Decode && final(self)@ == old(
                    self,
                )@,
            },
    {
        self.prove_wf();
        let x = Txn::from_bytes(bytes)?;
        self.txn = Some(x);
        self.prove_wf();
        Ok(())
    }
}

impl Default for Message {
    fn default() -> (r: Message)
        ensures
            r@ == message_empty(),
            message_wf(r@),
    {
        let m = Message {
            body: Vec::with_capacity(MAX_BODY_LEN),
            identities: Vec::with_capacity(MAX_IDENTITIES),
            header: Header::new_empty(),
            route_info: None,
            txn: None,
        };
        assert(strings_view(m.identities@) =~= Seq::<Seq<char>>::empty());
        m
    }
}

/// The capacity a new message reserves for its body.
pub const MAX_BODY_LEN: usize = 1048576;

/// The capacity a new message reserves for identities.
pub const MAX_IDENTITIES: usize = 10;


// ---------------------------------------------------------------------------
// Describing a message
// ---------------------------------------------------------------------------

/// The decimal digits of `v`.
pub open spec fn decimal(v: nat) -> Seq<char>
    decreases v,
{
    if v < 10 {
        seq![digit_char(v)]
    } else {
        decimal(v / 10) + seq![digit_char(v % 10)]
    }
}

/// The character of a decimal digit.
pub open spec fn digit_char(d: nat) -> char {
    if d == 0 {
        '0'
    } else if d == 1 {
        '1'
    } else if d == 2 {
        '2'
    } else if d == 3 {
        '3'
    } else if d == 4 {
        '4'
    } else if d == 5 {
        '5'
    } else if d == 6 {
        '6'
    } else if d == 7 {
        '7'
    } else if d == 8 {
        '8'
    } else {
        '9'
    }
}

/// The text of one decimal digit.
fn digit_text(d: u64) -> (r: &'static str)
    requires
        d < 10,
    ensures
        r@ == seq![digit_char(d as nat)],
{
    proof {
        reveal_strlit("0");
        reveal_strlit("1");
        reveal_strlit("2");
        reveal_strlit("3");
        reveal_strlit("4");
        reveal_strlit("5");
        reveal_strlit("6");
        reveal_strlit("7");
        reveal_strlit("8");
        reveal_strlit("9");
    }
    if d == 0 {
        "0"
    } else if d == 1 {
        "1"
    } else if d == 2 {
        "2"
    } else if d == 3 {
        "3"
    } else if d == 4 {
        "4"
    } else if d == 5 {
        "5"
    } else if d == 6 {
        "6"
    } else if d == 7 {
        "7"
    } else if d == 8 {
        "8"
    } else {
        "9"
    }
}

/// Appends the decimal digits of `v` to `out`.
fn push_decimal(v: u64, out: &mut String)
    ensures
        final(out)@ == old(out)@ + decimal(v as nat),
    decreases v,
{
    if v >= 10 {
        push_decimal(v / 10, out);
    }
    out.append(digit_text(v % 10));
    assert(out@ =~= old(out)@ + decimal(v as nat));
}

/// The decimal digits of `v`, as its `Display` writes them.
pub(crate) fn u64_to_string(v: u64) -> (r: String)
    ensures
        r@ == decimal(v as nat),
{
    let mut s = String::new();
    push_decimal(v, &mut s);
    assert(s@ =~= decimal(v as nat));
    s
}

/// The name a protocol is shown by.
pub open spec fn protocol_name(p: Protocol) -> Seq<char> {
    match p {
        Protocol::Net => "Net"@,
        Protocol::RouteSrv => "RouteSrv"@,
        Protocol::SessionSrv => "SessionSrv"@,
        Protocol::OriginSrv => "OriginSrv"@,
        Protocol::JobSrv => "JobSrv"@,
        Protocol::Scheduler => "Scheduler"@,
    }
}

impl Protocol {
    /// The name the protocol is shown by.
    pub fn name(&self) -> (r: &'static str)
        ensures
            r@ == protocol_name(*self),
    {
        match self {
            Protocol::Net => "Net",
            Protocol::RouteSrv => "RouteSrv",
            Protocol::SessionSrv => "SessionSrv",
            Protocol::OriginSrv => "OriginSrv",
            Protocol::JobSrv => "JobSrv",
            Protocol::Scheduler => "Scheduler",
        }
    }
}

/// The text of a boolean.
pub open spec fn bool_text(b: bool) -> Seq<char> {
    if b {
        "true"@
    } else {
        "false"@
    }
}

/// The sender part of a description.
pub open spec fn sender_part(m: MessageV) -> Seq<char> {
    if m.identities.len() > 0 {
        " "@ + m.identities[0]
    } else {
        Seq::empty()
    }
}

/// The routing part of a description.
pub open spec fn route_part(m: MessageV) -> Seq<char> {
    match m.route_info {
        Some(r) => ", proto="@ + protocol_name(
            match r.protocol {
                Some(p) => p,
                None => Protocol::Net,
            },
        ) + match r.hash {
            Some(h) => ", hash="@ + decimal(h as nat),
            None => Seq::empty(),
        },
        None => Seq::empty(),
    }
}

/// The transaction part of a description.
pub open spec fn txn_part(m: MessageV) -> Seq<char> {
    match m.txn {
        Some(t) => ", txn_id="@ + decimal(
            match t.id {
                Some(v) => v as nat,
                None => 0,
            },
        ) + ", txn_complete="@ + bool_text(
            match t.complete {
                Some(b) => b,
                None => false,
            },
        ),
        None => Seq::empty(),
    }
}

/// The one-line description of a message: its id in brackets, its sender
/// when it has one, its protocol and routing hash when it has a routing
/// frame, and its transaction's id and completion when it has one.
pub open spec fn description(m: MessageV) -> Seq<char> {
    "["@ + message_id_of(m) + "]"@ + sender_part(m) + route_part(m) + txn_part(m)
}

impl Message {
    fn push_sender_part(&self, msg: &mut String)
        ensures
            final(msg)@ == old(msg)@ + sender_part(self@),
    {
        match self.sender() {
            Ok(sender) => {
                msg.append(" ");
                msg.append(sender);
                assert(msg@ =~= old(msg)@ + sender_part(self@));
            },
            Err(_) => {
                assert(msg@ =~= old(msg)@ + sender_part(self@));
            },
        }
    }

    fn push_route_part(&self, msg: &mut String)
        ensures
            final(msg)@ == old(msg)@ + route_part(self@),
    {
        match &self.route_info {
            Some(route_info) => {
                msg.append(", proto=");
                msg.append(route_info.protocol().name());
                let ghost mid = msg@;
                match route_info.hash() {
                    Some(hash) => {
                        msg.append(", hash=");
                        let h = u64_to_string(hash);
                        msg.append(h.as_str());
                        assert(msg@ =~= mid + (", hash="@ + decimal(hash as nat)));
                    },
                    None => {
                        assert(msg@ =~= mid + Seq::<char>::empty());
                    },
                }
                assert(msg@ =~= old(msg)@ + route_part(self@));
            },
            None => {
                assert(msg@ =~= old(msg)@ + route_part(self@));
            },
        }
    }

    fn push_txn_part(&self, msg: &mut String)
        ensures
            final(msg)@ == old(msg)@ + txn_part(self@),
    {
        match &self.txn {
            Some(txn) => {
                msg.append(", txn_id=");
                let id = u64_to_string(txn.id());
                msg.append(id.as_str());
                msg.append(", txn_complete=");
                if txn.is_complete() {
                    msg.append("true");
                } else {
                    msg.append("false");
                }
                assert(msg@ =~= old(msg)@ + txn_part(self@));
            },
            None => {
                assert(msg@ =~= old(msg)@ + txn_part(self@));
            },
        }
    }

    /// The one-line description of the message, as [`description`] states it.
    pub fn describe(&self) -> (r: String)
        ensures
            r@ == description(self@),
    {
        let mut msg = String::new();
        msg.append("[");
        msg.append(self.message_id());
        msg.append("]");
        self.push_sender_part(&mut msg);
        self.push_route_part(&mut msg);
        self.push_txn_part(&mut msg);
        assert(msg@ =~= description(self@));
        msg
    }
}

} // verus!
