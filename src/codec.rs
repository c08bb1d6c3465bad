//! The self-describing encoding of a property snapshot.
//!
//! A blob is the body length as a little-endian `u64`, then the body. The
//! body is a run of entries. Each entry carries its field index (one byte),
//! a kind tag (one byte) and the value: one byte `0` or `1` for a flag,
//! four little-endian bytes for a float's bits or a `u32`, eight for an
//! `i64` or a `u64`, and for a text its UTF-8 length as a little-endian
//! `u64` followed by its UTF-8 bytes. Fields are written in schema order;
//! a reader takes them in any order, leaves absent fields at their zero
//! value and passes over entries whose index it does not know.

use crate::model::{
    field_kind, fits_schema, kind_of_field, zero_fields, zero_of, FieldKind, FieldModel, FieldValue,
    UPowerProperties, FIELD_COUNT,
};
use vstd::bytes::{
    spec_u32_from_le_bytes, spec_u32_to_le_bytes, spec_u64_from_le_bytes, spec_u64_to_le_bytes,
    u32_from_le_bytes, u32_to_le_bytes, u64_from_le_bytes, u64_to_le_bytes,
};
use vstd::prelude::*;
use vstd::slice::{slice_subrange, slice_to_vec};
use vstd::utf8::{decode_utf8, encode_utf8, valid_utf8};

verus! {

/// Why a blob could not be decoded.
#[derive(PartialEq, Eq, Structural, Clone, Copy, Debug)]
pub enum DecodeError {
    /// The blob does not follow the encoding: truncated, with bytes beyond
    /// its declared length, with an unknown kind tag, or with a known field
    /// carrying a value of the wrong kind.
    Malformed,
}

/// The tag byte that announces a value of kind `k`.
pub open spec fn kind_tag(k: FieldKind) -> u8 {
    match k {
        FieldKind::Bool => 1,
        FieldKind::Float => 2,
        FieldKind::I64 => 3,
        FieldKind::Text => 4,
        FieldKind::U32 => 5,
        FieldKind::U64 => 6,
    }
}

/// The kind that the tag byte `t` announces, if any.
pub open spec fn tag_kind(t: u8) -> Option<FieldKind> {
    if t == 1 {
        Some(FieldKind::Bool)
    } else if t == 2 {
        Some(FieldKind::Float)
    } else if t == 3 {
        Some(FieldKind::I64)
    } else if t == 4 {
        Some(FieldKind::Text)
    } else if t == 5 {
        Some(FieldKind::U32)
    } else if t == 6 {
        Some(FieldKind::U64)
    } else {
        None
    }
}

/// The bytes of a value, without index or tag.
pub open spec fn payload_bytes(v: FieldModel) -> Seq<u8> {
    match v {
        FieldModel::Bool(b) => seq![if b { 1u8 } else { 0u8 }],
        FieldModel::Float(x) => spec_u32_to_le_bytes(x),
        FieldModel::I64(x) => spec_u64_to_le_bytes(x as u64),
        FieldModel::Text(s) => spec_u64_to_le_bytes(encode_utf8(s).len() as u64) + encode_utf8(s),
        FieldModel::U32(x) => spec_u32_to_le_bytes(x),
        FieldModel::U64(x) => spec_u64_to_le_bytes(x),
    }
}

/// The entry that stores value `v` as field `id`.
pub open spec fn entry_bytes(id: int, v: FieldModel) -> Seq<u8> {
    seq![id as u8, kind_tag(v.kind())] + payload_bytes(v)
}

/// The entries of the fields of `m` below index `n` whose index is in `ids`,
/// in index order.
pub open spec fn fields_bytes(m: Seq<FieldModel>, ids: Set<int>, n: int) -> Seq<u8>
    decreases n,
{
    if n <= 0 {
        Seq::empty()
    } else if ids.contains(n - 1) {
        fields_bytes(m, ids, n - 1) + entry_bytes(n - 1, m[n - 1])
    } else {
        fields_bytes(m, ids, n - 1)
    }
}

/// A body preceded by its length.
pub open spec fn framed(body: Seq<u8>) -> Seq<u8> {
    spec_u64_to_le_bytes(body.len() as u64) + body
}

/// The blob that holds only the fields of `m` whose index is in `ids`.
pub open spec fn encoded_fields(m: Seq<FieldModel>, ids: Set<int>) -> Seq<u8> {
    framed(fields_bytes(m, ids, FIELD_COUNT as int))
}

/// The blob of a snapshot: every field, in schema order.
pub open spec fn encoded(m: Seq<FieldModel>) -> Seq<u8> {
    encoded_fields(m, Set::full())
}

fn tag_of(k: FieldKind) -> (t: u8)
    ensures
        t == kind_tag(k),
        tag_kind(t) == Some(k),
{
    match k {
        FieldKind::Bool => 1,
        FieldKind::Float => 2,
        FieldKind::I64 => 3,
        FieldKind::Text => 4,
        FieldKind::U32 => 5,
        FieldKind::U64 => 6,
    }
}

/// Appends the entry that stores `v` as field `id`.
fn write_entry(out: &mut Vec<u8>, id: u8, v: &FieldValue)
    ensures
        final(out)@ == old(out)@ + entry_bytes(id as int, v@),
{
    out.push(id);
    out.push(tag_of(v.kind()));
    match v {
        FieldValue::Bool(b) => {
            out.push(if *b { 1u8 } else { 0u8 });
        },
        FieldValue::Float(x) => {
            let mut bytes = u32_to_le_bytes(*x);
            out.append(&mut bytes);
        },
        FieldValue::I64(x) => {
            let mut bytes = u64_to_le_bytes(*x as u64);
            out.append(&mut bytes);
        },
        FieldValue::Text(s) => {
            let text = s.as_str().as_bytes();
            let mut len = u64_to_le_bytes(text.len() as u64);
            out.append(&mut len);
            let mut bytes = slice_to_vec(text);
            out.append(&mut bytes);
        },
        FieldValue::U32(x) => {
            let mut bytes = u32_to_le_bytes(*x);
            out.append(&mut bytes);
        },
        FieldValue::U64(x) => {
            let mut bytes = u64_to_le_bytes(*x);
            out.append(&mut bytes);
        },
    }
    assert(final(out)@ =~= old(out)@ + entry_bytes(id as int, v@));
}

/// Encodes a snapshot: every field in schema order, behind the body length.
pub fn encode(props: &UPowerProperties) -> (blob: Vec<u8>)
    ensures
        blob@ == encoded(props@),
{
    let mut body: Vec<u8> = Vec::new();
    let mut i: usize = 0;
    while i < FIELD_COUNT
        invariant
            i <= FIELD_COUNT,
            body@ == fields_bytes(props@, Set::full(), i as int),
        decreases FIELD_COUNT - i,
    {
        let v = props.field(i);
        write_entry(&mut body, i as u8, &v);
        i += 1;
    }
    let mut blob = u64_to_le_bytes(body.len() as u64);
    blob.append(&mut body);
    blob
}

/// The value of kind `k` at the start of `b`, with the number of bytes it
/// takes.
pub open spec fn parse_payload(k: FieldKind, b: Seq<u8>) -> Option<(FieldModel, int)> {
    match k {
        FieldKind::Bool => if b.len() >= 1 && b[0] <= 1 {
            Some((FieldModel::Bool(b[0] == 1), 1))
        } else {
            None
        },
        FieldKind::Float => if b.len() >= 4 {
            Some((FieldModel::Float(spec_u32_from_le_bytes(b.subrange(0, 4))), 4))
        } else {
            None
        },
        FieldKind::I64 => if b.len() >= 8 {
            Some((FieldModel::I64(spec_u64_from_le_bytes(b.subrange(0, 8)) as i64), 8))
        } else {
            None
        },
        FieldKind::Text => if b.len() >= 8 {
            let n = spec_u64_from_le_bytes(b.subrange(0, 8)) as int;
            if n <= b.len() - 8 && valid_utf8(b.subrange(8, 8 + n)) {
                Some((FieldModel::Text(decode_utf8(b.subrange(8, 8 + n))), 8 + n))
            } else {
                None
            }
        } else {
            None
        },
        FieldKind::U32 => if b.len() >= 4 {
            Some((FieldModel::U32(spec_u32_from_le_bytes(b.subrange(0, 4))), 4))
        } else {
            None
        },
        FieldKind::U64 => if b.len() >= 8 {
            Some((FieldModel::U64(spec_u64_from_le_bytes(b.subrange(0, 8))), 8))
        } else {
            None
        },
    }
}

/// The entry at the start of `b`: its field index, its value and the number
/// of bytes it takes.
pub open spec fn parse_entry(b: Seq<u8>) -> Option<(int, FieldModel, int)> {
    if b.len() < 2 {
        None
    } else {
        match tag_kind(b[1]) {
            None => None,
            Some(k) => match parse_payload(k, b.subrange(2, b.len() as int)) {
                None => None,
                Some((v, n)) => Some((b[0] as int, v, n + 2)),
            },
        }
    }
}

/// The snapshot `m` after reading the entry that stores `v` as field `id`:
/// a known field takes the value if the kinds agree, an unknown index
/// leaves `m` as it is.
pub open spec fn apply_entry(m: Seq<FieldModel>, id: int, v: FieldModel) -> Option<Seq<FieldModel>> {
    if id < FIELD_COUNT {
        if v.kind() == field_kind(id) {
            Some(m.update(id, v))
        } else {
            None
        }
    } else {
        Some(m)
    }
}

/// The snapshot `m` after reading every entry of `b`, or `None` when `b`
/// is not a run of entries.
pub open spec fn decode_body(b: Seq<u8>, m: Seq<FieldModel>) -> Option<Seq<FieldModel>>
    decreases b.len(),
{
    if b.len() == 0 {
        Some(m)
    } else {
        match parse_entry(b) {
            None => None,
            Some((id, v, n)) => if 0 < n <= b.len() {
                match apply_entry(m, id, v) {
                    None => None,
                    Some(m2) => decode_body(b.subrange(n, b.len() as int), m2),
                }
            } else {
                None
            },
        }
    }
}

/// The snapshot that blob `b` holds, every absent field at its zero value;
/// `None` when `b` is malformed.
pub open spec fn decoded(b: Seq<u8>) -> Option<Seq<FieldModel>> {
    if b.len() < 8 {
        None
    } else if spec_u64_from_le_bytes(b.subrange(0, 8)) as int != b.len() - 8 {
        None
    } else {
        decode_body(b.subrange(8, b.len() as int), zero_fields())
    }
}

/// Relies on `String::from_utf8`: it accepts exactly the well-formed UTF-8
/// byte sequences, and the string it returns consists of those bytes.
#[verifier::external_body]
fn string_from_utf8(bytes: Vec<u8>) -> (r: Option<String>)
    ensures
        match r {
            Some(s) => valid_utf8(bytes@) && s@ == decode_utf8(bytes@),
            None => !valid_utf8(bytes@),
        },
{
    String::from_utf8(bytes).ok()
}

fn kind_of_tag(t: u8) -> (k: Option<FieldKind>)
    ensures
        k == tag_kind(t),
{
    if t == 1 {
        Some(FieldKind::Bool)
    } else if t == 2 {
        Some(FieldKind::Float)
    } else if t == 3 {
        Some(FieldKind::I64)
    } else if t == 4 {
        Some(FieldKind::Text)
    } else if t == 5 {
        Some(FieldKind::U32)
    } else if t == 6 {
        Some(FieldKind::U64)
    } else {
        None
    }
}

/// Reads the value of kind `k` that starts at `pos`; on success also gives
/// the position after it.
fn read_payload(b: &[u8], pos: usize, k: FieldKind) -> (r: Option<(FieldValue, usize)>)
    requires
        pos <= b@.len(),
    ensures
        match parse_payload(k, b@.subrange(pos as int, b@.len() as int)) {
            None => r is None,
            Some((v, n)) => match r {
                Some((rv, next)) => rv@ == v && next == pos + n,
                None => false,
            },
        },
{
    let ghost rest = b@.subrange(pos as int, b@.len() as int);
    let avail = b.len() - pos;
    match k {
        FieldKind::Bool => {
            if avail >= 1 && b[pos] <= 1 {
                Some((FieldValue::Bool(b[pos] == 1), pos + 1))
            } else {
                None
            }
        },
        FieldKind::Float => {
            if avail >= 4 {
                let x = u32_from_le_bytes(slice_subrange(b, pos, pos + 4));
                assert(b@.subrange(pos as int, pos + 4) =~= rest.subrange(0, 4));
                Some((FieldValue::Float(x), pos + 4))
            } else {
                None
            }
        },
        FieldKind::I64 => {
            if avail >= 8 {
                let x = u64_from_le_bytes(slice_subrange(b, pos, pos + 8));
                assert(b@.subrange(pos as int, pos + 8) =~= rest.subrange(0, 8));
                Some((FieldValue::I64(x as i64), pos + 8))
            } else {
                None
            }
        },
        FieldKind::Text => {
            if avail >= 8 {
                let n = u64_from_le_bytes(slice_subrange(b, pos, pos + 8));
                assert(b@.subrange(pos as int, pos + 8) =~= rest.subrange(0, 8));
                if n <= (avail - 8) as u64 {
                    let end = pos + 8 + n as usize;
                    let bytes = slice_to_vec(slice_subrange(b, pos + 8, end));
                    assert(bytes@ =~= rest.subrange(8, 8 + n));
                    match string_from_utf8(bytes) {
                        Some(s) => Some((FieldValue::Text(s), end)),
                        None => None,
                    }
                } else {
                    None
                }
            } else {
                None
            }
        },
        FieldKind::U32 => {
            if avail >= 4 {
                let x = u32_from_le_bytes(slice_subrange(b, pos, pos + 4));
                assert(b@.subrange(pos as int, pos + 4) =~= rest.subrange(0, 4));
                Some((FieldValue::U32(x), pos + 4))
            } else {
                None
            }
        },
        FieldKind::U64 => {
            if avail >= 8 {
                let x = u64_from_le_bytes(slice_subrange(b, pos, pos + 8));
                assert(b@.subrange(pos as int, pos + 8) =~= rest.subrange(0, 8));
                Some((FieldValue::U64(x), pos + 8))
            } else {
                None
            }
        },
    }
}

/// Reads the entry that starts at `pos`: its field index, its value and the
/// position after it.
fn read_entry(b: &[u8], pos: usize) -> (r: Option<(u8, FieldValue, usize)>)
    requires
        pos <= b@.len(),
    ensures
        match parse_entry(b@.subrange(pos as int, b@.len() as int)) {
            None => r is None,
            Some((id, v, n)) => match r {
                Some((rid, rv, next)) => rid == id && rv@ == v && next == pos + n,
                None => false,
            },
        },
{
    let ghost rest = b@.subrange(pos as int, b@.len() as int);
    if b.len() - pos < 2 {
        return None;
    }
    let id = b[pos];
    match kind_of_tag(b[pos + 1]) {
        None => None,
        Some(k) => {
            assert(rest.subrange(2, rest.len() as int) =~= b@.subrange(pos + 2, b@.len() as int));
            match read_payload(b, pos + 2, k) {
                None => None,
                Some((v, next)) => Some((id, v, next)),
            }
        },
    }
}

/// Decodes a blob. Fields that the blob does not hold keep their zero
/// value; a malformed blob is refused.
pub fn decode(blob: &[u8]) -> (r: Result<UPowerProperties, DecodeError>)
    ensures
        match decoded(blob@) {
            Some(m) => match r {
                Ok(p) => p@ == m,
                Err(_) => false,
            },
            None => r == Err::<UPowerProperties, DecodeError>(DecodeError::Malformed),
        },
{
    if blob.len() < 8 {
        return Err(DecodeError::Malformed);
    }
    let declared = u64_from_le_bytes(slice_subrange(blob, 0, 8));
    if declared != (blob.len() - 8) as u64 {
        return Err(DecodeError::Malformed);
    }
    let ghost body = blob@.subrange(8, blob@.len() as int);
    let mut props = UPowerProperties::default();
    let mut pos: usize = 8;
    while pos < blob.len()
        invariant
            8 <= pos <= blob@.len(),
            decoded(blob@) == decode_body(body, zero_fields()),
            decode_body(blob@.subrange(pos as int, blob@.len() as int), props@) == decoded(blob@),
        decreases blob.len() - pos,
    {
        let ghost rest = blob@.subrange(pos as int, blob@.len() as int);
        match read_entry(blob, pos) {
            None => {
                return Err(DecodeError::Malformed);
            },
            Some((id, v, next)) => {
                assert(rest.subrange(next - pos, rest.len() as int) =~= blob@.subrange(
                    next as int,
                    blob@.len() as int,
                ));
                if (id as usize) < FIELD_COUNT {
                    if v.kind() != kind_of_field(id as usize) {
                        return Err(DecodeError::Malformed);
                    }
                    props.set_field(id as usize, v);
                }
                pos = next;
            },
        }
    }
    Ok(props)
}

/// The snapshot `m` with only the fields whose index is in `ids` kept, the
/// others at their zero value.
pub open spec fn only_fields(m: Seq<FieldModel>, ids: Set<int>) -> Seq<FieldModel> {
    Seq::new(
        FIELD_COUNT as nat,
        |i: int|
            if ids.contains(i) {
                m[i]
            } else {
                zero_of(field_kind(i))
            },
    )
}

spec fn only_fields_below(m: Seq<FieldModel>, ids: Set<int>, n: int) -> Seq<FieldModel> {
    Seq::new(
        FIELD_COUNT as nat,
        |i: int|
            if i < n && ids.contains(i) {
                m[i]
            } else {
                zero_of(field_kind(i))
            },
    )
}

/// Every snapshot's field sequence fits the schema.
pub proof fn lemma_view_fits_schema(p: UPowerProperties)
    ensures
        fits_schema(p@),
{
}

proof fn lemma_entry_parses(id: int, v: FieldModel, rest: Seq<u8>)
    requires
        0 <= id < 256,
        payload_bytes(v).len() <= u64::MAX,
    ensures
        parse_entry(entry_bytes(id, v) + rest) == Some((id, v, entry_bytes(id, v).len() as int)),
{
    vstd::bytes::lemma_auto_spec_u32_to_from_le_bytes();
    vstd::bytes::lemma_auto_spec_u64_to_from_le_bytes();
    let b = entry_bytes(id, v) + rest;
    let p = b.subrange(2, b.len() as int);
    assert(b[0] == id as u8);
    assert(b[1] == kind_tag(v.kind()));
    match v {
        FieldModel::Bool(x) => {
            assert(p[0] == payload_bytes(v)[0]);
        },
        FieldModel::Float(x) => {
            assert(p.subrange(0, 4) =~= spec_u32_to_le_bytes(x));
        },
        FieldModel::I64(x) => {
            assert(p.subrange(0, 8) =~= spec_u64_to_le_bytes(x as u64));
            assert((x as u64) as i64 == x) by (bit_vector);
        },
        FieldModel::Text(s) => {
            let t = encode_utf8(s);
            assert(p.subrange(0, 8) =~= spec_u64_to_le_bytes(t.len() as u64));
            assert(p.subrange(8, 8 + t.len() as int) =~= t);
            vstd::utf8::encode_utf8_valid_utf8(s);
            vstd::utf8::encode_utf8_decode_utf8(s);
        },
        FieldModel::U32(x) => {
            assert(p.subrange(0, 4) =~= spec_u32_to_le_bytes(x));
        },
        FieldModel::U64(x) => {
            assert(p.subrange(0, 8) =~= spec_u64_to_le_bytes(x));
        },
    }
}

proof fn lemma_parse_entry_extend(a: Seq<u8>, b: Seq<u8>)
    requires
        parse_entry(a) is Some,
    ensures
        parse_entry(a + b) == parse_entry(a),
{
    let ab = a + b;
    let pa = a.subrange(2, a.len() as int);
    let pab = ab.subrange(2, ab.len() as int);
    assert(ab[0] == a[0] && ab[1] == a[1]);
    assert(pab =~= pa + b);
    if pa.len() >= 4 {
        assert(pab.subrange(0, 4) =~= pa.subrange(0, 4));
    }
    if pa.len() >= 8 {
        assert(pab.subrange(0, 8) =~= pa.subrange(0, 8));
        let n = spec_u64_from_le_bytes(pa.subrange(0, 8)) as int;
        if n <= pa.len() - 8 {
            assert(pab.subrange(8, 8 + n) =~= pa.subrange(8, 8 + n));
        }
    }
    if pa.len() >= 1 {
        assert(pab[0] == pa[0]);
    }
}

proof fn lemma_decode_body_concat(a: Seq<u8>, b: Seq<u8>, m: Seq<FieldModel>)
    requires
        decode_body(a, m) is Some,
    ensures
        decode_body(a + b, m) == decode_body(b, decode_body(a, m)->Some_0),
    decreases a.len(),
{
    if a.len() == 0 {
        assert(a + b =~= b);
    } else {
        let (id, v, n) = parse_entry(a)->Some_0;
        lemma_parse_entry_extend(a, b);
        let m2 = apply_entry(m, id, v)->Some_0;
        let a2 = a.subrange(n, a.len() as int);
        assert((a + b).subrange(n, (a + b).len() as int) =~= a2 + b);
        lemma_decode_body_concat(a2, b, m2);
    }
}

proof fn lemma_decode_fields_below(m: Seq<FieldModel>, ids: Set<int>, n: int)
    requires
        fits_schema(m),
        0 <= n <= FIELD_COUNT,
        fields_bytes(m, ids, n).len() <= u64::MAX,
    ensures
        decode_body(fields_bytes(m, ids, n), zero_fields()) == Some(only_fields_below(m, ids, n)),
    decreases n,
{
    if n == 0 {
        assert(only_fields_below(m, ids, 0) =~= zero_fields());
    } else {
        let prev = fields_bytes(m, ids, n - 1);
        assert(prev.len() <= fields_bytes(m, ids, n).len());
        lemma_decode_fields_below(m, ids, n - 1);
        if ids.contains(n - 1) {
            let e = entry_bytes(n - 1, m[n - 1]);
            let s = only_fields_below(m, ids, n - 1);
            assert(fields_bytes(m, ids, n) == prev + e);
            assert(e.len() == 2 + payload_bytes(m[n - 1]).len());
            lemma_decode_body_concat(prev, e, zero_fields());
            lemma_entry_parses(n - 1, m[n - 1], Seq::empty());
            assert(e + Seq::<u8>::empty() =~= e);
            assert(e.subrange(e.len() as int, e.len() as int) =~= Seq::<u8>::empty());
            assert(m[n - 1].kind() == field_kind(n - 1));
            let s2 = s.update(n - 1, m[n - 1]);
            assert(apply_entry(s, n - 1, m[n - 1]) == Some(s2));
            assert(decode_body(Seq::<u8>::empty(), s2) == Some(s2));
            assert(decode_body(e, s) == Some(s2));
            assert(s2 =~= only_fields_below(m, ids, n));
        } else {
            assert(only_fields_below(m, ids, n - 1) =~= only_fields_below(m, ids, n));
        }
    }
}

/// A blob that holds only some of a snapshot's fields decodes to that
/// snapshot with every other field at its zero value.
pub proof fn lemma_missing_fields_default(m: Seq<FieldModel>, ids: Set<int>)
    requires
        fits_schema(m),
        encoded_fields(m, ids).len() <= u64::MAX,
    ensures
        decoded(encoded_fields(m, ids)) == Some(only_fields(m, ids)),
{
    vstd::bytes::lemma_auto_spec_u64_to_from_le_bytes();
    let body = fields_bytes(m, ids, FIELD_COUNT as int);
    let b = encoded_fields(m, ids);
    assert(b.subrange(0, 8) =~= spec_u64_to_le_bytes(body.len() as u64));
    assert(b.subrange(8, b.len() as int) =~= body);
    lemma_decode_fields_below(m, ids, FIELD_COUNT as int);
    assert(only_fields_below(m, ids, FIELD_COUNT as int) =~= only_fields(m, ids));
}

/// Decoding the encoding of a snapshot gives the snapshot back.
pub proof fn lemma_round_trip(p: UPowerProperties)
    requires
        encoded(p@).len() <= usize::MAX,
    ensures
        decoded(encoded(p@)) == Some(p@),
{
    lemma_view_fits_schema(p);
    lemma_missing_fields_default(p@, Set::full());
    assert(only_fields(p@, Set::full()) =~= p@);
}

/// No proper prefix of a well-formed blob decodes: cutting bytes off the end
/// of a blob, even a single one, makes it malformed.
pub proof fn lemma_truncated_blob_rejected(b: Seq<u8>, k: int)
    requires
        decoded(b) is Some,
        0 <= k < b.len(),
    ensures
        decoded(b.subrange(0, k)) is None,
{
    let t = b.subrange(0, k);
    if t.len() >= 8 {
        assert(t.subrange(0, 8) =~= b.subrange(0, 8));
    }
}

} // verus!
