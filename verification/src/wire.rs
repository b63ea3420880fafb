//! The protobuf wire layer under the protocol messages.
//!
//! The messages of the protocol (their field numbers and field types) are this
//! crate's own schema; the wire primitives (varints, tags, length-delimited
//! payloads, unknown values) are read and written by the `protobuf` crate.
//! Each call into `protobuf` goes through one small trusted wrapper whose
//! contract states, over the spec functions below, what that primitive does.
use vstd::prelude::*;
use vstd::utf8::*;
use protobuf::stream::wire_format;
use protobuf::CodedInputStream;
use protobuf::CodedOutputStream;

verus! {

/// 2^64, the modulus of a 64-bit varint.
pub open spec fn two_pow_64() -> int {
    0x1_0000_0000_0000_0000
}

/// 2^32, the modulus of a 32-bit truncation.
pub open spec fn two_pow_32() -> int {
    0x1_0000_0000
}

/// The largest field number a tag may carry.
pub const FIELD_NUMBER_MAX: u32 = 0x1fff_ffff;

// ---------------------------------------------------------------------------
// Varints
// ---------------------------------------------------------------------------

/// The value of the base-128 little-endian digits at the front of `s`, reading
/// at most `fuel` bytes, and the number of bytes read; `None` when the input
/// ends before a byte below 0x80, or when `fuel` bytes all carry the
/// continuation bit.
pub open spec fn varint_digits(s: Seq<u8>, fuel: nat) -> Option<(nat, nat)>
    decreases fuel,
{
    if fuel == 0 || s.len() == 0 {
        None
    } else if s[0] < 0x80 {
        Some((s[0] as nat, 1))
    } else {
        match varint_digits(s.drop_first(), (fuel - 1) as nat) {
            Some((v, n)) => Some((((s[0] - 0x80) + 0x80 * v) as nat, n + 1)),
            None => None,
        }
    }
}

/// A varint read from the front of `s` as protobuf reads one: at most ten
/// bytes, the value taken modulo 2^64.
pub open spec fn varint_read(s: Seq<u8>) -> Option<(u64, nat)> {
    match varint_digits(s, 10) {
        Some((v, n)) => Some((((v as int) % two_pow_64()) as u64, n)),
        None => None,
    }
}

/// The bytes of the varint encoding of `v`.
pub open spec fn varint_bytes(v: nat) -> Seq<u8>
    decreases v,
{
    if v < 0x80 {
        seq![v as u8]
    } else {
        seq![((v % 0x80) + 0x80) as u8] + varint_bytes(v / 0x80)
    }
}

/// 128 to the power `k`.
pub open spec fn pow128(k: nat) -> nat
    decreases k,
{
    if k == 0 {
        1
    } else {
        0x80 * pow128((k - 1) as nat)
    }
}

/// A varint read consumes at least one byte and no more than it was given.
pub proof fn lemma_varint_digits_bounds(s: Seq<u8>, fuel: nat)
    ensures
        varint_digits(s, fuel) matches Some((v, n)) ==> 1 <= n <= s.len() && n <= fuel,
    decreases fuel,
{
    if fuel > 0 && s.len() > 0 && s[0] >= 0x80 {
        lemma_varint_digits_bounds(s.drop_first(), (fuel - 1) as nat);
    }
}

/// The encoding of `v` takes at most `k` bytes when `v < 128^k`.
pub proof fn lemma_varint_bytes_len(v: nat, k: nat)
    requires
        v < pow128(k),
        k >= 1,
    ensures
        1 <= varint_bytes(v).len() <= k,
    decreases v,
{
    if v >= 0x80 {
        assert(k > 0);
        assert(v / 0x80 < pow128((k - 1) as nat));
        lemma_varint_bytes_len(v / 0x80, (k - 1) as nat);
    }
}

/// Reading the encoding of `v`, followed by anything, gives back `v` and the
/// length of the encoding.
pub proof fn lemma_varint_digits_roundtrip(v: nat, rest: Seq<u8>, fuel: nat)
    requires
        varint_bytes(v).len() <= fuel,
    ensures
        varint_digits(varint_bytes(v) + rest, fuel) == Some((v, varint_bytes(v).len())),
    decreases v,
{
    let s = varint_bytes(v) + rest;
    if v < 0x80 {
        assert(s[0] == v as u8);
    } else {
        let tail = varint_bytes(v / 0x80);
        assert(s[0] == ((v % 0x80) + 0x80) as u8);
        assert(s.drop_first() =~= tail + rest);
        lemma_varint_digits_roundtrip(v / 0x80, rest, (fuel - 1) as nat);
    }
}

/// 2^64 is below 128^10, so every `u64` encodes in at most ten bytes.
pub proof fn lemma_pow128_ten()
    ensures
        two_pow_64() <= pow128(10),
{
    reveal_with_fuel(pow128, 11);
}

/// Reading back the encoding of a `u64` gives the value and the encoding's length.
pub proof fn lemma_varint_roundtrip(v: u64, rest: Seq<u8>)
    ensures
        varint_read(varint_bytes(v as nat) + rest) == Some((v, varint_bytes(v as nat).len())),
        1 <= varint_bytes(v as nat).len() <= 10,
{
    lemma_pow128_ten();
    lemma_varint_bytes_len(v as nat, 10);
    lemma_varint_digits_roundtrip(v as nat, rest, 10);
}


// ---------------------------------------------------------------------------
// Tags
// ---------------------------------------------------------------------------

/// The wire type carried in the low three bits of a tag.
#[derive(PartialEq, Eq, Structural, Clone, Copy, Debug)]
pub enum WireType {
    Varint,
    Fixed64,
    LengthDelimited,
    StartGroup,
    EndGroup,
    Fixed32,
}

/// The code of a wire type in a tag.
pub open spec fn wire_type_code(w: WireType) -> nat {
    match w {
        WireType::Varint => 0,
        WireType::Fixed64 => 1,
        WireType::LengthDelimited => 2,
        WireType::StartGroup => 3,
        WireType::EndGroup => 4,
        WireType::Fixed32 => 5,
    }
}

/// The wire type with a given code, if any.
pub open spec fn wire_type_of_code(c: int) -> Option<WireType> {
    if c == 0 {
        Some(WireType::Varint)
    } else if c == 1 {
        Some(WireType::Fixed64)
    } else if c == 2 {
        Some(WireType::LengthDelimited)
    } else if c == 3 {
        Some(WireType::StartGroup)
    } else if c == 4 {
        Some(WireType::EndGroup)
    } else if c == 5 {
        Some(WireType::Fixed32)
    } else {
        None
    }
}

/// A tag read from the front of `s`: a varint taken modulo 2^32, whose low
/// three bits name a wire type and whose other bits give a nonzero field number.
pub open spec fn tag_read(s: Seq<u8>) -> Option<(u32, WireType, nat)> {
    match varint_read(s) {
        Some((v, n)) => {
            let t = (v as int) % two_pow_32();
            match wire_type_of_code(t % 8) {
                Some(w) => if t / 8 == 0 {
                    None
                } else {
                    Some(((t / 8) as u32, w, n))
                },
                None => None,
            }
        },
        None => None,
    }
}

/// The bytes of the tag for field `number` with wire type `w`.
pub open spec fn tag_bytes(number: u32, w: WireType) -> Seq<u8> {
    varint_bytes((number * 8 + wire_type_code(w)) as nat)
}

/// A field number that a tag can carry.
pub open spec fn valid_field_number(number: u32) -> bool {
    1 <= number <= FIELD_NUMBER_MAX
}

/// Reading back the tag of a valid field number gives the number and the wire type.
pub proof fn lemma_tag_roundtrip(number: u32, w: WireType, rest: Seq<u8>)
    requires
        valid_field_number(number),
    ensures
        tag_read(tag_bytes(number, w) + rest) == Some((number, w, tag_bytes(number, w).len())),
        1 <= tag_bytes(number, w).len() <= 10,
{
    let t = (number * 8 + wire_type_code(w)) as u64;
    lemma_varint_roundtrip(t, rest);
    assert((t as int) % two_pow_32() == t);
    assert(t % 8 == wire_type_code(w));
    assert(t / 8 == number);
}

// ---------------------------------------------------------------------------
// Fixed-width little-endian values
// ---------------------------------------------------------------------------

/// The little-endian value of the first `k` bytes of `s`.
pub open spec fn le_value(s: Seq<u8>, k: nat) -> nat
    decreases k,
{
    if k == 0 || s.len() == 0 {
        0
    } else {
        (s[0] + 0x100 * le_value(s.drop_first(), (k - 1) as nat)) as nat
    }
}

/// The `k` little-endian bytes of `v`.
pub open spec fn le_bytes(v: nat, k: nat) -> Seq<u8>
    decreases k,
{
    if k == 0 {
        Seq::empty()
    } else {
        seq![(v % 0x100) as u8] + le_bytes(v / 0x100, (k - 1) as nat)
    }
}

/// 256 to the power `k`.
pub open spec fn pow256(k: nat) -> nat
    decreases k,
{
    if k == 0 {
        1
    } else {
        0x100 * pow256((k - 1) as nat)
    }
}

/// Reading back the `k` little-endian bytes of a value that fits in them gives the value.
pub proof fn lemma_le_roundtrip(v: nat, k: nat, rest: Seq<u8>)
    requires
        v < pow256(k),
    ensures
        le_bytes(v, k).len() == k,
        le_value(le_bytes(v, k) + rest, k) == v,
    decreases k,
{
    if k > 0 {
        let s = le_bytes(v, k) + rest;
        lemma_le_roundtrip(v / 0x100, (k - 1) as nat, rest);
        assert(s.drop_first() =~= le_bytes(v / 0x100, (k - 1) as nat) + rest);
    }
}

/// The value of `k` little-endian bytes is below 256^k.
pub proof fn lemma_le_value_bound(s: Seq<u8>, k: nat)
    ensures
        le_value(s, k) < pow256(k),
    decreases k,
{
    if k > 0 && s.len() > 0 {
        lemma_le_value_bound(s.drop_first(), (k - 1) as nat);
    }
    if k > 0 {
        lemma_pow256_pos((k - 1) as nat);
    }
}

/// 256^k is positive.
pub proof fn lemma_pow256_pos(k: nat)
    ensures
        pow256(k) >= 1,
    decreases k,
{
    if k > 0 {
        lemma_pow256_pos((k - 1) as nat);
    }
}

/// 256^4 and 256^8 are the moduli of 32- and 64-bit values.
pub proof fn lemma_pow256_values()
    ensures
        pow256(4) == two_pow_32(),
        pow256(8) == two_pow_64(),
{
    reveal_with_fuel(pow256, 9);
}

// ---------------------------------------------------------------------------
// Unknown values, strings, packed integers and groups
// ---------------------------------------------------------------------------

/// A value of a field that the message's schema does not name, as protobuf keeps it.
pub enum UnknownValue {
    Fixed32(u32),
    Fixed64(u64),
    Varint(u64),
    LengthDelimited(Vec<u8>),
}

/// The mathematical value of an [`UnknownValue`].
pub enum UnknownV {
    Fixed32(u32),
    Fixed64(u64),
    Varint(u64),
    LengthDelimited(Seq<u8>),
}

impl View for UnknownValue {
    type V = UnknownV;

    open spec fn view(&self) -> UnknownV {
        match self {
            UnknownValue::Fixed32(v) => UnknownV::Fixed32(*v),
            UnknownValue::Fixed64(v) => UnknownV::Fixed64(*v),
            UnknownValue::Varint(v) => UnknownV::Varint(*v),
            UnknownValue::LengthDelimited(b) => UnknownV::LengthDelimited(b@),
        }
    }
}

/// The wire type under which an unknown value is written.
pub open spec fn unknown_wire_type(u: UnknownV) -> WireType {
    match u {
        UnknownV::Fixed32(_) => WireType::Fixed32,
        UnknownV::Fixed64(_) => WireType::Fixed64,
        UnknownV::Varint(_) => WireType::Varint,
        UnknownV::LengthDelimited(_) => WireType::LengthDelimited,
    }
}

/// A length-delimited payload at the front of `s`: a varint length taken
/// modulo 2^32, then that many bytes.
pub open spec fn length_delimited_read(s: Seq<u8>) -> Option<(Seq<u8>, nat)> {
    match varint_read(s) {
        Some((v, n)) => {
            let len = (v as int) % two_pow_32();
            if n + len <= s.len() {
                Some((s.subrange(n as int, n + len), (n + len) as nat))
            } else {
                None
            }
        },
        None => None,
    }
}

/// A value of wire type `w` at the front of `s`, as protobuf's `read_unknown`
/// reads it; groups are refused.
pub open spec fn unknown_read(s: Seq<u8>, w: WireType) -> Option<(UnknownV, nat)> {
    match w {
        WireType::Varint => match varint_read(s) {
            Some((v, n)) => Some((UnknownV::Varint(v), n)),
            None => None,
        },
        WireType::Fixed64 => if s.len() >= 8 {
            Some((UnknownV::Fixed64(le_value(s, 8) as u64), 8))
        } else {
            None
        },
        WireType::Fixed32 => if s.len() >= 4 {
            Some((UnknownV::Fixed32(le_value(s, 4) as u32), 4))
        } else {
            None
        },
        WireType::LengthDelimited => match length_delimited_read(s) {
            Some((b, n)) => Some((UnknownV::LengthDelimited(b), n)),
            None => None,
        },
        _ => None,
    }
}

/// The bytes of an unknown value, without its tag.
pub open spec fn unknown_bytes(u: UnknownV) -> Seq<u8> {
    match u {
        UnknownV::Fixed32(v) => le_bytes(v as nat, 4),
        UnknownV::Fixed64(v) => le_bytes(v as nat, 8),
        UnknownV::Varint(v) => varint_bytes(v as nat),
        UnknownV::LengthDelimited(b) => varint_bytes(b.len()) + b,
    }
}

/// A string at the front of `s`: a length-delimited payload that is valid UTF-8.
pub open spec fn string_read(s: Seq<u8>) -> Option<(Seq<char>, nat)> {
    match length_delimited_read(s) {
        Some((b, n)) => if valid_utf8(b) {
            Some((decode_utf8(b), n))
        } else {
            None
        },
        None => None,
    }
}

/// The varints of a packed payload, each taken modulo 2^32; every varint must
/// end inside the payload.
pub open spec fn packed_values(p: Seq<u8>) -> Option<Seq<u32>>
    decreases p.len(),
{
    if p.len() == 0 {
        Some(Seq::empty())
    } else {
        match varint_read(p) {
            Some((v, n)) => if n == 0 || n > p.len() {
                None
            } else {
                match packed_values(p.skip(n as int)) {
                    Some(r) => Some(seq![((v as int) % two_pow_32()) as u32] + r),
                    None => None,
                }
            },
            None => None,
        }
    }
}

/// A packed run of `uint32` at the front of `s`, as protobuf's
/// `read_repeated_packed_uint32_into` reads it from a stream over `s`: a
/// 64-bit varint length, refused when the limit it sets overflows; the payload
/// ends at that limit or at the end of the input, whichever comes first.
pub open spec fn packed_read(s: Seq<u8>) -> Option<(Seq<u32>, nat)> {
    match varint_read(s) {
        Some((len, n)) => if n + len >= two_pow_64() {
            None
        } else {
            let end = if n + len <= s.len() {
                n + len
            } else {
                s.len() as int
            };
            match packed_values(s.subrange(n as int, end)) {
                Some(vs) => Some((vs, end as nat)),
                None => None,
            }
        },
        None => None,
    }
}

/// The length of a group body that protobuf skips from the front of `s`: the
/// fields up to and including the first end-group tag; a nested group is refused.
pub open spec fn group_skip(s: Seq<u8>) -> Option<nat>
    decreases s.len(),
{
    match tag_read(s) {
        Some((_f, w, n)) => if w == WireType::EndGroup {
            Some(n)
        } else {
            match unknown_read(s.skip(n as int), w) {
                Some((_u, m)) => if n == 0 || n + m > s.len() {
                    None
                } else {
                    match group_skip(s.skip((n + m) as int)) {
                        Some(r) => Some(n + m + r),
                        None => None,
                    }
                },
                None => None,
            }
        },
        None => None,
    }
}


// ---------------------------------------------------------------------------
// Fields of a message
// ---------------------------------------------------------------------------

/// How a message reads the field with a given number: the field types the
/// protocol's messages use, and `Other` for a number the message does not name.
#[derive(PartialEq, Eq, Structural, Clone, Copy, Debug)]
pub enum FieldKind {
    Str,
    Bool,
    U64,
    I32,
    RepeatedU32,
    Other,
}

/// A field value as read from the wire.
pub enum FieldValue {
    Str(String),
    Bool(bool),
    U64(u64),
    I32(i32),
    U32s(Vec<u32>),
    Unknown(UnknownValue),
    /// A group under a number the message does not name: skipped, not kept.
    Skipped,
}

/// The mathematical value of a [`FieldValue`].
pub enum FieldValueV {
    Str(Seq<char>),
    Bool(bool),
    U64(u64),
    I32(i32),
    U32s(Seq<u32>),
    Unknown(UnknownV),
    Skipped,
}

impl View for FieldValue {
    type V = FieldValueV;

    open spec fn view(&self) -> FieldValueV {
        match self {
            FieldValue::Str(s) => FieldValueV::Str(s@),
            FieldValue::Bool(b) => FieldValueV::Bool(*b),
            FieldValue::U64(v) => FieldValueV::U64(*v),
            FieldValue::I32(v) => FieldValueV::I32(*v),
            FieldValue::U32s(v) => FieldValueV::U32s(v@),
            FieldValue::Unknown(u) => FieldValueV::Unknown(u@),
            FieldValue::Skipped => FieldValueV::Skipped,
        }
    }
}

/// One field of a message: its number and value.
pub struct Field {
    pub number: u32,
    pub value: FieldValue,
}

/// The mathematical value of a [`Field`].
pub struct FieldV {
    pub number: u32,
    pub value: FieldValueV,
}

impl View for Field {
    type V = FieldV;

    open spec fn view(&self) -> FieldV {
        FieldV { number: self.number, value: self.value@ }
    }
}

/// The views of a list of fields.
pub open spec fn fields_view(fs: Seq<Field>) -> Seq<FieldV> {
    fs.map_values(|f: Field| f@)
}

/// The kind a schema gives to field `number`: that of its first entry for
/// the number, `Other` when it has none.
pub open spec fn kind_in(schema: Seq<(u32, FieldKind)>, number: u32) -> FieldKind
    decreases schema.len(),
{
    if schema.len() == 0 {
        FieldKind::Other
    } else if schema[0].0 == number {
        schema[0].1
    } else {
        kind_in(schema.drop_first(), number)
    }
}

/// The `i32` that a varint gives when protobuf reads it as `int32`.
pub open spec fn varint_as_i32(v: u64) -> i32 {
    let t = (v as int) % two_pow_32();
    if t >= 0x8000_0000 {
        (t - two_pow_32()) as i32
    } else {
        t as i32
    }
}

/// The varint that protobuf writes for an `int32` (sign-extended to 64 bits).
pub open spec fn i32_as_varint(v: i32) -> u64 {
    if v < 0 {
        (v + two_pow_64()) as u64
    } else {
        v as u64
    }
}

/// The value of a field of kind `kind`, tagged with wire type `w`, at the front of `s`,
/// as the message's generated reader takes it: a named field with the wrong wire type
/// is refused; a group under an unnamed number is skipped.
pub open spec fn field_value_read(kind: FieldKind, w: WireType, s: Seq<u8>) -> Option<(FieldValueV, nat)> {
    match kind {
        FieldKind::Str => if w != WireType::LengthDelimited {
            None
        } else {
            match string_read(s) {
                Some((c, n)) => Some((FieldValueV::Str(c), n)),
                None => None,
            }
        },
        FieldKind::Bool => if w != WireType::Varint {
            None
        } else {
            match varint_read(s) {
                Some((v, n)) => Some((FieldValueV::Bool((v as int) % two_pow_32() != 0), n)),
                None => None,
            }
        },
        FieldKind::U64 => if w != WireType::Varint {
            None
        } else {
            match varint_read(s) {
                Some((v, n)) => Some((FieldValueV::U64(v), n)),
                None => None,
            }
        },
        FieldKind::I32 => if w != WireType::Varint {
            None
        } else {
            match varint_read(s) {
                Some((v, n)) => Some((FieldValueV::I32(varint_as_i32(v)), n)),
                None => None,
            }
        },
        FieldKind::RepeatedU32 => if w == WireType::LengthDelimited {
            match packed_read(s) {
                Some((vs, n)) => Some((FieldValueV::U32s(vs), n)),
                None => None,
            }
        } else if w == WireType::Varint {
            match varint_read(s) {
                Some((v, n)) => Some((FieldValueV::U32s(seq![((v as int) % two_pow_32()) as u32]), n)),
                None => None,
            }
        } else {
            None
        },
        FieldKind::Other => if w == WireType::StartGroup {
            match group_skip(s) {
                Some(n) => Some((FieldValueV::Skipped, n)),
                None => None,
            }
        } else {
            match unknown_read(s, w) {
                Some((u, n)) => Some((FieldValueV::Unknown(u), n)),
                None => None,
            }
        },
    }
}

/// The fields of a message read from `s` under `schema`, in the order they
/// come; `None` when any field fails to read.
pub open spec fn fields_read(schema: Seq<(u32, FieldKind)>, s: Seq<u8>) -> Option<Seq<FieldV>>
    decreases s.len(),
{
    if s.len() == 0 {
        Some(Seq::empty())
    } else {
        match tag_read(s) {
            Some((number, w, n)) => match field_value_read(kind_in(schema, number), w, s.skip(n as int)) {
                Some((v, m)) => if n == 0 || n + m > s.len() {
                    None
                } else {
                    match fields_read(schema, s.skip((n + m) as int)) {
                        Some(rest) => Some(seq![FieldV { number, value: v }] + rest),
                        None => None,
                    }
                },
                None => None,
            },
            None => None,
        }
    }
}

/// The bytes the generated writer emits for a field value, after its tag.
pub open spec fn value_bytes(v: FieldValueV) -> Seq<u8> {
    match v {
        FieldValueV::Str(c) => varint_bytes(encode_utf8(c).len()) + encode_utf8(c),
        FieldValueV::Bool(b) => varint_bytes(
            if b {
                1
            } else {
                0
            },
        ),
        FieldValueV::U64(x) => varint_bytes(x as nat),
        FieldValueV::I32(x) => varint_bytes(i32_as_varint(x) as nat),
        FieldValueV::U32s(vs) => varint_bytes(vs[0] as nat),
        FieldValueV::Unknown(u) => unknown_bytes(u),
        FieldValueV::Skipped => Seq::empty(),
    }
}

/// The wire type under which a field value is written.
pub open spec fn value_wire_type(v: FieldValueV) -> WireType {
    match v {
        FieldValueV::Str(_) => WireType::LengthDelimited,
        FieldValueV::Unknown(u) => unknown_wire_type(u),
        _ => WireType::Varint,
    }
}

/// The bytes the generated writer emits for one field: its tag, then its
/// value. A repeated value is written unpacked, one field per element, so
/// only a one-element run is a single field; an empty or longer run, and a
/// skipped group, are no single field and give no bytes here.
pub open spec fn field_bytes(f: FieldV) -> Seq<u8> {
    match f.value {
        FieldValueV::Skipped => Seq::empty(),
        FieldValueV::U32s(vs) => if vs.len() == 1 {
            tag_bytes(f.number, WireType::Varint) + varint_bytes(vs[0] as nat)
        } else {
            Seq::empty()
        },
        _ => tag_bytes(f.number, value_wire_type(f.value)) + value_bytes(f.value),
    }
}

/// The bytes of a list of fields, one after another.
pub open spec fn fields_bytes(fs: Seq<FieldV>) -> Seq<u8>
    decreases fs.len(),
{
    if fs.len() == 0 {
        Seq::empty()
    } else {
        field_bytes(fs[0]) + fields_bytes(fs.drop_first())
    }
}

/// A field that the writer emits and the reader reads back unchanged under
/// `schema`: its kind matches the schema's, a repeated value carries exactly
/// one element (the writer emits repeated fields unpacked, one per element),
/// and every length fits in 32 bits.
pub open spec fn canonical_field(schema: Seq<(u32, FieldKind)>, f: FieldV) -> bool {
    &&& valid_field_number(f.number)
    &&& match f.value {
        FieldValueV::Str(c) => kind_in(schema, f.number) == FieldKind::Str && encode_utf8(c).len()
            < two_pow_32(),
        FieldValueV::Bool(_) => kind_in(schema, f.number) == FieldKind::Bool,
        FieldValueV::U64(_) => kind_in(schema, f.number) == FieldKind::U64,
        FieldValueV::I32(_) => kind_in(schema, f.number) == FieldKind::I32,
        FieldValueV::U32s(vs) => kind_in(schema, f.number) == FieldKind::RepeatedU32 && vs.len()
            == 1,
        FieldValueV::Unknown(u) => kind_in(schema, f.number) == FieldKind::Other && match u {
            UnknownV::LengthDelimited(b) => b.len() < two_pow_32(),
            _ => true,
        },
        FieldValueV::Skipped => false,
    }
}

/// Every field of the list is canonical under `schema`.
pub open spec fn canonical_fields(schema: Seq<(u32, FieldKind)>, fs: Seq<FieldV>) -> bool {
    forall|i: int| 0 <= i < fs.len() ==> canonical_field(schema, #[trigger] fs[i])
}


// ---------------------------------------------------------------------------
// What the writer emits, the reader reads back
// ---------------------------------------------------------------------------

proof fn lemma_length_delimited_roundtrip(b: Seq<u8>, rest: Seq<u8>)
    requires
        b.len() < two_pow_32(),
    ensures
        length_delimited_read(varint_bytes(b.len()) + b + rest) == Some((
            b,
            (varint_bytes(b.len()) + b).len(),
        )),
{
    let lb = varint_bytes(b.len());
    let s = lb + b + rest;
    assert(s =~= lb + (b + rest));
    lemma_varint_roundtrip(b.len() as u64, b + rest);
    assert(s.subrange(lb.len() as int, (lb.len() + b.len()) as int) =~= b);
}

proof fn lemma_i32_varint(v: i32)
    ensures
        varint_as_i32(i32_as_varint(v)) == v,
{
    if v < 0 {
        let u = v + two_pow_64();
        assert(u == (v + two_pow_32()) + (two_pow_32() - 1) * two_pow_32());
        assert(u % two_pow_32() == v + two_pow_32()) by (nonlinear_arith)
            requires
                u == (v + two_pow_32()) + (two_pow_32() - 1) * two_pow_32(),
                0 <= v + two_pow_32() < two_pow_32(),
        ;
    }
}

proof fn lemma_unknown_roundtrip(u: UnknownV, rest: Seq<u8>)
    requires
        u matches UnknownV::LengthDelimited(b) ==> b.len() < two_pow_32(),
    ensures
        unknown_read(unknown_bytes(u) + rest, unknown_wire_type(u)) == Some((u, unknown_bytes(u).len())),
{
    lemma_pow256_values();
    match u {
        UnknownV::Fixed32(v) => {
            lemma_le_roundtrip(v as nat, 4, rest);
        },
        UnknownV::Fixed64(v) => {
            lemma_le_roundtrip(v as nat, 8, rest);
        },
        UnknownV::Varint(v) => {
            lemma_varint_roundtrip(v, rest);
        },
        UnknownV::LengthDelimited(b) => {
            lemma_length_delimited_roundtrip(b, rest);
        },
    }
}

proof fn lemma_value_roundtrip(kind: FieldKind, v: FieldValueV, rest: Seq<u8>)
    requires
        match v {
            FieldValueV::Str(c) => kind == FieldKind::Str && encode_utf8(c).len() < two_pow_32(),
            FieldValueV::Bool(_) => kind == FieldKind::Bool,
            FieldValueV::U64(_) => kind == FieldKind::U64,
            FieldValueV::I32(_) => kind == FieldKind::I32,
            FieldValueV::U32s(vs) => kind == FieldKind::RepeatedU32 && vs.len() == 1,
            FieldValueV::Unknown(u) => kind == FieldKind::Other && match u {
                UnknownV::LengthDelimited(b) => b.len() < two_pow_32(),
                _ => true,
            },
            FieldValueV::Skipped => false,
        },
    ensures
        field_value_read(kind, value_wire_type(v), value_bytes(v) + rest) == Some((v, value_bytes(v).len())),
{
    match v {
        FieldValueV::Str(c) => {
            broadcast use encode_utf8_valid_utf8, encode_utf8_decode_utf8;

            let b = encode_utf8(c);
            lemma_length_delimited_roundtrip(b, rest);
        },
        FieldValueV::Bool(bv) => {
            lemma_varint_roundtrip(if bv { 1u64 } else { 0u64 }, rest);
        },
        FieldValueV::U64(x) => {
            lemma_varint_roundtrip(x, rest);
        },
        FieldValueV::I32(x) => {
            lemma_varint_roundtrip(i32_as_varint(x), rest);
            lemma_i32_varint(x);
        },
        FieldValueV::U32s(vs) => {
            lemma_varint_roundtrip(vs[0] as u64, rest);
            assert(seq![((vs[0] as int) % two_pow_32()) as u32] =~= vs);
        },
        FieldValueV::Unknown(u) => {
            lemma_unknown_roundtrip(u, rest);
        },
        FieldValueV::Skipped => {},
    }
}

proof fn lemma_field_roundtrip(schema: Seq<(u32, FieldKind)>, f: FieldV, rest: Seq<u8>)
    requires
        canonical_field(schema, f),
    ensures
        ({
            let s = field_bytes(f) + rest;
            let w = value_wire_type(f.value);
            let tn = tag_bytes(f.number, w).len();
            &&& tag_read(s) == Some((f.number, w, tn))
            &&& field_value_read(kind_in(schema, f.number), w, s.skip(tn as int)) == Some((
                f.value,
                (field_bytes(f).len() - tn) as nat,
            ))
            &&& 1 <= tn <= field_bytes(f).len()
        }),
{
    let w = value_wire_type(f.value);
    let t = tag_bytes(f.number, w);
    let body = value_bytes(f.value);
    assert(field_bytes(f) =~= t + body);
    let s = field_bytes(f) + rest;
    assert(s =~= t + (body + rest));
    lemma_tag_roundtrip(f.number, w, body + rest);
    assert(s.skip(t.len() as int) =~= body + rest);
    lemma_value_roundtrip(kind_in(schema, f.number), f.value, rest);
}

/// Reading back what the writer emits for a list of canonical fields gives
/// the same fields, in the same order.
pub proof fn lemma_fields_roundtrip(schema: Seq<(u32, FieldKind)>, fs: Seq<FieldV>)
    requires
        canonical_fields(schema, fs),
    ensures
        fields_read(schema, fields_bytes(fs)) == Some(fs),
    decreases fs.len(),
{
    if fs.len() > 0 {
        let f = fs[0];
        let tail = fs.drop_first();
        assert(canonical_field(schema, fs[0]));
        assert(canonical_fields(schema, tail)) by {
            assert forall|i: int| 0 <= i < tail.len() implies canonical_field(schema, #[trigger] tail[i]) by {
                assert(tail[i] == fs[i + 1]);
            }
        }
        let s = fields_bytes(fs);
        assert(s == field_bytes(f) + fields_bytes(tail));
        lemma_field_roundtrip(schema, f, fields_bytes(tail));
        let w = value_wire_type(f.value);
        let tn = tag_bytes(f.number, w).len();
        assert(s.skip(field_bytes(f).len() as int) =~= fields_bytes(tail));
        lemma_fields_roundtrip(schema, tail);
        assert(seq![f] + tail =~= fs);
    }
}


/// Every field of the list can be written: a valid number, no skipped group,
/// a repeated value of exactly one element, and every length within 32 bits.
pub open spec fn writable_fields(fs: Seq<FieldV>) -> bool {
    forall|i: int| 0 <= i < fs.len() ==> writable_field(#[trigger] fs[i])
}

/// One field that the writer can emit as it is.
pub open spec fn writable_field(f: FieldV) -> bool {
    &&& valid_field_number(f.number)
    &&& match f.value {
        FieldValueV::Str(c) => encode_utf8(c).len() < two_pow_32(),
        FieldValueV::U32s(vs) => vs.len() == 1,
        FieldValueV::Unknown(u) => match u {
            UnknownV::LengthDelimited(b) => b.len() < two_pow_32(),
            _ => true,
        },
        FieldValueV::Skipped => false,
        _ => true,
    }
}

// ---------------------------------------------------------------------------
// Calls into protobuf's coded streams
// ---------------------------------------------------------------------------

/// `CodedInputStream::read_tag_unpack` on the bytes from `pos` on: a tag as
/// [`tag_read`] states it, and the number of bytes it took.
#[verifier::external_body]
fn pb_read_tag(bytes: &[u8], pos: usize) -> (r: Option<(u32, WireType, usize)>)
    requires
        pos <= bytes@.len(),
    ensures
        match r {
            Some((f, w, n)) => tag_read(bytes@.skip(pos as int)) == Some((f, w, n as nat)),
            None => tag_read(bytes@.skip(pos as int)) is None,
        },
{
    let mut is = CodedInputStream::from_bytes(&bytes[pos..]);
    let (f, w) = match is.read_tag_unpack() {
        Ok(t) => t,
        Err(_) => return None,
    };
    let w = match w {
        wire_format::WireTypeVarint => WireType::Varint,
        wire_format::WireTypeFixed64 => WireType::Fixed64,
        wire_format::WireTypeLengthDelimited => WireType::LengthDelimited,
        wire_format::WireTypeStartGroup => WireType::StartGroup,
        wire_format::WireTypeEndGroup => WireType::EndGroup,
        wire_format::WireTypeFixed32 => WireType::Fixed32,
    };
    Some((f, w, is.pos() as usize))
}

/// `CodedInputStream::read_string`: a length-delimited payload that must be
/// valid UTF-8, as [`string_read`] states it.
#[verifier::external_body]
fn pb_read_string(bytes: &[u8], pos: usize) -> (r: Option<(String, usize)>)
    requires
        pos <= bytes@.len(),
    ensures
        match r {
            Some((v, n)) => string_read(bytes@.skip(pos as int)) == Some((v@, n as nat)),
            None => string_read(bytes@.skip(pos as int)) is None,
        },
{
    let mut is = CodedInputStream::from_bytes(&bytes[pos..]);
    match is.read_string() {
        Ok(v) => Some((v, is.pos() as usize)),
        Err(_) => None,
    }
}

/// `CodedInputStream::read_bool`: a varint whose low 32 bits are not all zero.
#[verifier::external_body]
fn pb_read_bool(bytes: &[u8], pos: usize) -> (r: Option<(bool, usize)>)
    requires
        pos <= bytes@.len(),
    ensures
        match r {
            Some((v, n)) => field_value_read(FieldKind::Bool, WireType::Varint, bytes@.skip(pos as int))
                == Some((FieldValueV::Bool(v), n as nat)),
            None => varint_read(bytes@.skip(pos as int)) is None,
        },
{
    let mut is = CodedInputStream::from_bytes(&bytes[pos..]);
    match is.read_bool() {
        Ok(v) => Some((v, is.pos() as usize)),
        Err(_) => None,
    }
}

/// `CodedInputStream::read_uint64`: a varint.
#[verifier::external_body]
fn pb_read_uint64(bytes: &[u8], pos: usize) -> (r: Option<(u64, usize)>)
    requires
        pos <= bytes@.len(),
    ensures
        match r {
            Some((v, n)) => varint_read(bytes@.skip(pos as int)) == Some((v, n as nat)),
            None => varint_read(bytes@.skip(pos as int)) is None,
        },
{
    let mut is = CodedInputStream::from_bytes(&bytes[pos..]);
    match is.read_uint64() {
        Ok(v) => Some((v, is.pos() as usize)),
        Err(_) => None,
    }
}

/// `CodedInputStream::read_int32`: a varint whose low 32 bits are taken as an `i32`.
#[verifier::external_body]
fn pb_read_int32(bytes: &[u8], pos: usize) -> (r: Option<(i32, usize)>)
    requires
        pos <= bytes@.len(),
    ensures
        match r {
            Some((v, n)) => field_value_read(FieldKind::I32, WireType::Varint, bytes@.skip(pos as int))
                == Some((FieldValueV::I32(v), n as nat)),
            None => varint_read(bytes@.skip(pos as int)) is None,
        },
{
    let mut is = CodedInputStream::from_bytes(&bytes[pos..]);
    match is.read_int32() {
        Ok(v) => Some((v, is.pos() as usize)),
        Err(_) => None,
    }
}

/// `CodedInputStream::read_uint32`: a varint taken modulo 2^32.
#[verifier::external_body]
fn pb_read_uint32(bytes: &[u8], pos: usize) -> (r: Option<(u32, usize)>)
    requires
        pos <= bytes@.len(),
    ensures
        match r {
            Some((v, n)) => varint_read(bytes@.skip(pos as int)) matches Some((x, k)) && k == n
                && v == ((x as int) % two_pow_32()) as u32,
            None => varint_read(bytes@.skip(pos as int)) is None,
        },
{
    let mut is = CodedInputStream::from_bytes(&bytes[pos..]);
    match is.read_uint32() {
        Ok(v) => Some((v, is.pos() as usize)),
        Err(_) => None,
    }
}

/// `CodedInputStream::read_repeated_packed_uint32_into` on an empty vector:
/// the packed run that [`packed_read`] states.
#[verifier::external_body]
fn pb_read_packed_uint32(bytes: &[u8], pos: usize) -> (r: Option<(Vec<u32>, usize)>)
    requires
        pos <= bytes@.len(),
    ensures
        match r {
            Some((v, n)) => packed_read(bytes@.skip(pos as int)) == Some((v@, n as nat)),
            None => packed_read(bytes@.skip(pos as int)) is None,
        },
{
    let mut is = CodedInputStream::from_bytes(&bytes[pos..]);
    let mut v: Vec<u32> = Vec::new();
    match is.read_repeated_packed_uint32_into(&mut v) {
        Ok(()) => Some((v, is.pos() as usize)),
        Err(_) => None,
    }
}

/// `CodedInputStream::read_unknown` with wire type `w`, which is not a group
/// marker: the value that [`unknown_read`] states.
#[verifier::external_body]
fn pb_read_unknown(bytes: &[u8], pos: usize, w: WireType) -> (r: Option<(UnknownValue, usize)>)
    requires
        pos <= bytes@.len(),
        w != WireType::StartGroup,
        w != WireType::EndGroup,
    ensures
        match r {
            Some((v, n)) => unknown_read(bytes@.skip(pos as int), w) == Some((v@, n as nat)),
            None => unknown_read(bytes@.skip(pos as int), w) is None,
        },
{
    let wt = match w {
        WireType::Varint => wire_format::WireTypeVarint,
        WireType::Fixed64 => wire_format::WireTypeFixed64,
        WireType::LengthDelimited => wire_format::WireTypeLengthDelimited,
        _ => wire_format::WireTypeFixed32,
    };
    let mut is = CodedInputStream::from_bytes(&bytes[pos..]);
    match is.read_unknown(wt) {
        Ok(protobuf::UnknownValue::Fixed32(v)) => Some((UnknownValue::Fixed32(v), is.pos() as usize)),
        Ok(protobuf::UnknownValue::Fixed64(v)) => Some((UnknownValue::Fixed64(v), is.pos() as usize)),
        Ok(protobuf::UnknownValue::Varint(v)) => Some((UnknownValue::Varint(v), is.pos() as usize)),
        Ok(protobuf::UnknownValue::LengthDelimited(v)) => Some((UnknownValue::LengthDelimited(v), is.pos() as usize)),
        Err(_) => None,
    }
}

/// `rt::read_unknown_or_skip_group` for a start-group tag under field
/// `number`: the group is skipped, and the number of bytes skipped is the one
/// [`group_skip`] states.
#[verifier::external_body]
fn pb_skip_group(bytes: &[u8], pos: usize, number: u32) -> (r: Option<usize>)
    requires
        pos <= bytes@.len(),
    ensures
        match r {
            Some(n) => group_skip(bytes@.skip(pos as int)) == Some(n as nat),
            None => group_skip(bytes@.skip(pos as int)) is None,
        },
{
    let mut is = CodedInputStream::from_bytes(&bytes[pos..]);
    let mut unknown = protobuf::UnknownFields::new();
    match protobuf::rt::read_unknown_or_skip_group(number, wire_format::WireTypeStartGroup, &mut is, &mut unknown) {
        Ok(()) => Some(is.pos() as usize),
        Err(_) => None,
    }
}

/// `CodedOutputStream::write_string` into `out`: the tag, the length of the
/// UTF-8 bytes and the bytes, appended.
#[verifier::external_body]
fn pb_write_string(out: &mut Vec<u8>, number: u32, v: &str)
    requires
        valid_field_number(number),
        encode_utf8(v@).len() < two_pow_32(),
    ensures
        final(out)@ == old(out)@ + field_bytes(FieldV { number, value: FieldValueV::Str(v@) }),
{
    let mut os = CodedOutputStream::vec(out);
    let _ = os.write_string(number, v);
    let _ = os.flush();
}

/// `CodedOutputStream::write_bool` into `out`: the tag and the varint 1 or 0, appended.
#[verifier::external_body]
fn pb_write_bool(out: &mut Vec<u8>, number: u32, v: bool)
    requires
        valid_field_number(number),
    ensures
        final(out)@ == old(out)@ + field_bytes(FieldV { number, value: FieldValueV::Bool(v) }),
{
    let mut os = CodedOutputStream::vec(out);
    let _ = os.write_bool(number, v);
    let _ = os.flush();
}

/// `CodedOutputStream::write_uint64` into `out`: the tag and the varint, appended.
#[verifier::external_body]
fn pb_write_uint64(out: &mut Vec<u8>, number: u32, v: u64)
    requires
        valid_field_number(number),
    ensures
        final(out)@ == old(out)@ + field_bytes(FieldV { number, value: FieldValueV::U64(v) }),
{
    let mut os = CodedOutputStream::vec(out);
    let _ = os.write_uint64(number, v);
    let _ = os.flush();
}

/// `CodedOutputStream::write_enum` into `out`: the tag and the value
/// sign-extended to a 64-bit varint, appended.
#[verifier::external_body]
fn pb_write_enum(out: &mut Vec<u8>, number: u32, v: i32)
    requires
        valid_field_number(number),
    ensures
        final(out)@ == old(out)@ + field_bytes(FieldV { number, value: FieldValueV::I32(v) }),
{
    let mut os = CodedOutputStream::vec(out);
    let _ = os.write_enum(number, v);
    let _ = os.flush();
}

/// `CodedOutputStream::write_uint32` into `out`: the tag and the varint, appended.
#[verifier::external_body]
fn pb_write_uint32(out: &mut Vec<u8>, number: u32, v: u32)
    requires
        valid_field_number(number),
    ensures
        final(out)@ == old(out)@ + field_bytes(FieldV { number, value: FieldValueV::U32s(seq![v]) }),
{
    let mut os = CodedOutputStream::vec(out);
    let _ = os.write_uint32(number, v);
    let _ = os.flush();
}

/// `CodedOutputStream::write_unknown` into `out`: the tag with the value's
/// wire type, then the value, appended.
#[verifier::external_body]
fn pb_write_unknown(out: &mut Vec<u8>, number: u32, v: &UnknownValue)
    requires
        valid_field_number(number),
        v@ matches UnknownV::LengthDelimited(b) ==> b.len() < two_pow_32(),
    ensures
        final(out)@ == old(out)@ + field_bytes(FieldV { number, value: FieldValueV::Unknown(v@) }),
{
    let r = match v {
        UnknownValue::Fixed32(x) => protobuf::UnknownValueRef::Fixed32(*x),
        UnknownValue::Fixed64(x) => protobuf::UnknownValueRef::Fixed64(*x),
        UnknownValue::Varint(x) => protobuf::UnknownValueRef::Varint(*x),
        UnknownValue::LengthDelimited(b) => protobuf::UnknownValueRef::LengthDelimited(b.as_slice()),
    };
    let mut os = CodedOutputStream::vec(out);
    let _ = os.write_unknown(number, r);
    let _ = os.flush();
}

// ---------------------------------------------------------------------------
// Reading and writing the fields of a message
// ---------------------------------------------------------------------------

/// The kind that `schema` gives to field `number`.
pub fn kind_of(schema: &Vec<(u32, FieldKind)>, number: u32) -> (r: FieldKind)
    ensures
        r == kind_in(schema@, number),
{
    let mut i: usize = 0;
    assert(schema@.skip(0) =~= schema@);
    while i < schema.len()
        invariant
            i <= schema@.len(),
            kind_in(schema@, number) == kind_in(schema@.skip(i as int), number),
        decreases schema@.len() - i,
    {
        assert(schema@.skip(i as int).drop_first() =~= schema@.skip(i + 1));
        if schema[i].0 == number {
            return schema[i].1;
        }
        i = i + 1;
    }
    FieldKind::Other
}

proof fn lemma_tag_read_bounds(s: Seq<u8>)
    ensures
        tag_read(s) matches Some((_f, _w, n)) ==> 1 <= n <= s.len(),
{
    lemma_varint_digits_bounds(s, 10);
}

/// Reads the value of a field of kind `kind` with wire type `w` from `pos` on.
fn read_field_value(kind: FieldKind, w: WireType, bytes: &[u8], pos: usize) -> (r: Option<(FieldValue, usize)>)
    requires
        pos <= bytes@.len(),
    ensures
        match r {
            Some((v, n)) => field_value_read(kind, w, bytes@.skip(pos as int)) == Some((v@, n as nat)),
            None => field_value_read(kind, w, bytes@.skip(pos as int)) is None,
        },
{
    match kind {
        FieldKind::Str => {
            if w != WireType::LengthDelimited {
                return None;
            }
            match pb_read_string(bytes, pos) {
                Some((v, n)) => Some((FieldValue::Str(v), n)),
                None => None,
            }
        },
        FieldKind::Bool => {
            if w != WireType::Varint {
                return None;
            }
            match pb_read_bool(bytes, pos) {
                Some((v, n)) => Some((FieldValue::Bool(v), n)),
                None => None,
            }
        },
        FieldKind::U64 => {
            if w != WireType::Varint {
                return None;
            }
            match pb_read_uint64(bytes, pos) {
                Some((v, n)) => Some((FieldValue::U64(v), n)),
                None => None,
            }
        },
        FieldKind::I32 => {
            if w != WireType::Varint {
                return None;
            }
            match pb_read_int32(bytes, pos) {
                Some((v, n)) => Some((FieldValue::I32(v), n)),
                None => None,
            }
        },
        FieldKind::RepeatedU32 => {
            if w == WireType::LengthDelimited {
                match pb_read_packed_uint32(bytes, pos) {
                    Some((v, n)) => Some((FieldValue::U32s(v), n)),
                    None => None,
                }
            } else if w == WireType::Varint {
                match pb_read_uint32(bytes, pos) {
                    Some((v, n)) => {
                        let mut vs: Vec<u32> = Vec::new();
                        vs.push(v);
                        proof {
                            let x = varint_read(bytes@.skip(pos as int)).unwrap().0;
                            assert(vs@ =~= seq![((x as int) % two_pow_32()) as u32]);
                        }
                        Some((FieldValue::U32s(vs), n))
                    },
                    None => None,
                }
            } else {
                None
            }
        },
        FieldKind::Other => {
            if w == WireType::StartGroup {
                match pb_skip_group(bytes, pos, 0) {
                    Some(n) => Some((FieldValue::Skipped, n)),
                    None => None,
                }
            } else if w == WireType::EndGroup {
                None
            } else {
                match pb_read_unknown(bytes, pos, w) {
                    Some((u, n)) => Some((FieldValue::Unknown(u), n)),
                    None => None,
                }
            }
        },
    }
}

/// Reads the fields of a message from `bytes` under `schema`, as the
/// message's generated reader does: `None` when any field fails to read.
#[verifier::rlimit(40)]
pub fn read_fields(schema: &Vec<(u32, FieldKind)>, bytes: &[u8]) -> (r: Option<Vec<Field>>)
    ensures
        match r {
            Some(fs) => fields_read(schema@, bytes@) == Some(fields_view(fs@)),
            None => fields_read(schema@, bytes@) is None,
        },
{
    let mut out: Vec<Field> = Vec::new();
    let mut pos: usize = 0;
    assert(bytes@.skip(0) =~= bytes@);
    while pos < bytes.len()
        invariant
            pos <= bytes@.len(),
            fields_read(schema@, bytes@) == match fields_read(schema@, bytes@.skip(pos as int)) {
                Some(rest) => Some(fields_view(out@) + rest),
                None => None,
            },
        decreases bytes@.len() - pos,
    {
        let ghost s = bytes@.skip(pos as int);
        let (number, w, n) = match pb_read_tag(bytes, pos) {
            Some(t) => t,
            None => return None,
        };
        proof {
            lemma_tag_read_bounds(s);
            assert(s.skip(n as int) =~= bytes@.skip(pos + n));
        }
        let kind = kind_of(schema, number);
        let (value, m) = match read_field_value(kind, w, bytes, pos + n) {
            Some(t) => t,
            None => return None,
        };
        if m > bytes.len() - pos - n {
            return None;
        }
        proof {
            assert(s.skip((n + m) as int) =~= bytes@.skip(pos + n + m));
            let f = Field { number, value };
            assert(fields_view(out@.push(f)) =~= fields_view(out@) + seq![f@]);
        }
        out.push(Field { number, value });
        pos = pos + n + m;
        proof {
            let rest_s = fields_read(schema@, bytes@.skip(pos as int));
            if rest_s is Some {
                assert(fields_view(out@) + rest_s.unwrap() =~= fields_view(out@.drop_last())
                    + (seq![out@.last()@] + rest_s.unwrap()));
            }
        }
    }
    assert(bytes@.skip(pos as int) =~= Seq::<u8>::empty());
    assert(fields_view(out@) + Seq::<FieldV>::empty() =~= fields_view(out@));
    Some(out)
}

/// Appends the bytes of one field to `out`, as the generated writer emits it.
fn write_field(out: &mut Vec<u8>, f: &Field)
    requires
        writable_field(f@),
    ensures
        final(out)@ == old(out)@ + field_bytes(f@),
{
    match &f.value {
        FieldValue::Str(v) => pb_write_string(out, f.number, v.as_str()),
        FieldValue::Bool(v) => pb_write_bool(out, f.number, *v),
        FieldValue::U64(v) => pb_write_uint64(out, f.number, *v),
        FieldValue::I32(v) => pb_write_enum(out, f.number, *v),
        FieldValue::U32s(vs) => {
            pb_write_uint32(out, f.number, vs[0]);
            assert(seq![vs@[0]] =~= vs@);
        },
        FieldValue::Unknown(u) => pb_write_unknown(out, f.number, u),
        FieldValue::Skipped => {},
    }
}

proof fn lemma_fields_bytes_push(fs: Seq<FieldV>, f: FieldV)
    ensures
        fields_bytes(fs.push(f)) == fields_bytes(fs) + field_bytes(f),
    decreases fs.len(),
{
    if fs.len() == 0 {
        let one = fs.push(f);
        assert(one.drop_first() =~= Seq::<FieldV>::empty());
        assert(one[0] == f);
        assert(fields_bytes(one.drop_first()) == Seq::<u8>::empty());
        assert(field_bytes(f) + Seq::<u8>::empty() =~= field_bytes(f));
        assert(fields_bytes(fs) == Seq::<u8>::empty());
        assert(Seq::<u8>::empty() + field_bytes(f) =~= field_bytes(f));
    } else {
        assert(fs.push(f).drop_first() =~= fs.drop_first().push(f));
        lemma_fields_bytes_push(fs.drop_first(), f);
        assert(fields_bytes(fs.push(f)) =~= fields_bytes(fs) + field_bytes(f));
    }
}

/// Appends the bytes of the fields to `out`, one after another.
pub fn write_fields(out: &mut Vec<u8>, fs: &Vec<Field>)
    requires
        writable_fields(fields_view(fs@)),
    ensures
        final(out)@ == old(out)@ + fields_bytes(fields_view(fs@)),
{
    let mut i: usize = 0;
    while i < fs.len()
        invariant
            i <= fs@.len(),
            writable_fields(fields_view(fs@)),
            out@ == old(out)@ + fields_bytes(fields_view(fs@.take(i as int))),
        decreases fs@.len() - i,
    {
        assert(writable_field(fields_view(fs@)[i as int]));
        write_field(out, &fs[i]);
        proof {
            assert(fields_view(fs@.take(i + 1)) =~= fields_view(fs@.take(i as int)).push(fs@[i as int]@));
            lemma_fields_bytes_push(fields_view(fs@.take(i as int)), fs@[i as int]@);
        }
        i = i + 1;
    }
    assert(fs@.take(i as int) =~= fs@);
}


/// A field as the reader can produce it under `schema`: a valid number, a
/// value of the kind the schema names (an unknown value or a skipped group
/// only under a number the schema does not name), and lengths within 32 bits.
pub open spec fn read_field_ok(schema: Seq<(u32, FieldKind)>, f: FieldV) -> bool {
    &&& valid_field_number(f.number)
    &&& match f.value {
        FieldValueV::Str(c) => kind_in(schema, f.number) == FieldKind::Str && encode_utf8(c).len()
            < two_pow_32(),
        FieldValueV::Bool(_) => kind_in(schema, f.number) == FieldKind::Bool,
        FieldValueV::U64(_) => kind_in(schema, f.number) == FieldKind::U64,
        FieldValueV::I32(_) => kind_in(schema, f.number) == FieldKind::I32,
        FieldValueV::U32s(_) => kind_in(schema, f.number) == FieldKind::RepeatedU32,
        FieldValueV::Unknown(u) => kind_in(schema, f.number) == FieldKind::Other && match u {
            UnknownV::LengthDelimited(b) => b.len() < two_pow_32(),
            _ => true,
        },
        FieldValueV::Skipped => kind_in(schema, f.number) == FieldKind::Other,
    }
}

proof fn lemma_tag_number_valid(s: Seq<u8>)
    ensures
        tag_read(s) matches Some((f, _w, _n)) ==> valid_field_number(f),
{
    if let Some((v, n)) = varint_read(s) {
        let t = (v as int) % two_pow_32();
        assert(t / 8 <= FIELD_NUMBER_MAX);
    }
}

proof fn lemma_field_value_read_ok(kind: FieldKind, w: WireType, s: Seq<u8>)
    ensures
        field_value_read(kind, w, s) matches Some((v, _n)) ==> match v {
            FieldValueV::Str(c) => kind == FieldKind::Str && encode_utf8(c).len() < two_pow_32(),
            FieldValueV::Bool(_) => kind == FieldKind::Bool,
            FieldValueV::U64(_) => kind == FieldKind::U64,
            FieldValueV::I32(_) => kind == FieldKind::I32,
            FieldValueV::U32s(_) => kind == FieldKind::RepeatedU32,
            FieldValueV::Unknown(u) => kind == FieldKind::Other && match u {
                UnknownV::LengthDelimited(b) => b.len() < two_pow_32(),
                _ => true,
            },
            FieldValueV::Skipped => kind == FieldKind::Other,
        },
{
    broadcast use decode_utf8_encode_utf8;

    if kind == FieldKind::Str {
        if let Some((b, n)) = length_delimited_read(s) {
            if valid_utf8(b) {
                assert(encode_utf8(decode_utf8(b)) == b);
            }
        }
    }
}

/// Every field that the reader produces under `schema` is as the schema names it.
pub proof fn lemma_fields_read_ok(schema: Seq<(u32, FieldKind)>, s: Seq<u8>)
    ensures
        fields_read(schema, s) matches Some(fs) ==> forall|i: int|
            0 <= i < fs.len() ==> read_field_ok(schema, #[trigger] fs[i]),
    decreases s.len(),
{
    if s.len() > 0 {
        if let Some((number, w, n)) = tag_read(s) {
            lemma_tag_number_valid(s);
            lemma_field_value_read_ok(kind_in(schema, number), w, s.skip(n as int));
            if let Some((v, m)) = field_value_read(kind_in(schema, number), w, s.skip(n as int)) {
                if n != 0 && n + m <= s.len() {
                    lemma_fields_read_ok(schema, s.skip((n + m) as int));
                    if let Some(fs) = fields_read(schema, s) {
                        let rest = fields_read(schema, s.skip((n + m) as int)).unwrap();
                        assert forall|i: int| 0 <= i < fs.len() implies read_field_ok(schema, #[trigger] fs[i]) by {
                            if i > 0 {
                                assert(fs[i] == rest[i - 1]);
                            }
                        }
                    }
                }
            }
        }
    }
}

} // verus!
