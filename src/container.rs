//! The record container: a property blob and a history series, framed by
//! `bincode` as a pair of vectors.

use crate::model::HistorySample;
use vstd::bytes::{
    spec_u32_from_le_bytes, spec_u32_to_le_bytes, spec_u64_from_le_bytes, spec_u64_to_le_bytes,
};
use vstd::prelude::*;

verus! {

/// The error that `bincode` reports; carried through, never looked into.
#[verifier::external_type_specification]
#[verifier::external_body]
pub struct ExBincodeErrorKind(bincode::ErrorKind);

/// What a record file holds: the encoded properties and the raw history.
#[derive(Clone, Debug, PartialEq, Eq)]
pub struct DataLayout {
    pub p: Vec<u8>,
    pub d: Vec<HistorySample>,
}

/// The twelve bytes of one history sample.
pub open spec fn sample_bytes(s: HistorySample) -> Seq<u8> {
    spec_u32_to_le_bytes(s.0) + spec_u32_to_le_bytes(s.1) + spec_u32_to_le_bytes(s.2)
}

/// The samples of `d`, one after the other.
pub open spec fn samples_bytes(d: Seq<HistorySample>) -> Seq<u8>
    decreases d.len(),
{
    if d.len() == 0 {
        Seq::empty()
    } else {
        samples_bytes(d.drop_last()) + sample_bytes(d.last())
    }
}

/// The container of blob `p` and history `d`: each vector as its length,
/// a little-endian `u64`, followed by its elements.
pub open spec fn layout_bytes(p: Seq<u8>, d: Seq<HistorySample>) -> Seq<u8> {
    spec_u64_to_le_bytes(p.len() as u64) + p + spec_u64_to_le_bytes(d.len() as u64)
        + samples_bytes(d)
}

/// The sample whose twelve bytes start at `at` in `b`.
pub open spec fn sample_at(b: Seq<u8>, at: int) -> HistorySample {
    (
        spec_u32_from_le_bytes(b.subrange(at, at + 4)),
        spec_u32_from_le_bytes(b.subrange(at + 4, at + 8)),
        spec_u32_from_le_bytes(b.subrange(at + 8, at + 12)),
    )
}

/// The blob and history that a container starting at the beginning of `b`
/// holds; bytes after the container are not read. `None` when `b` is too
/// short for the lengths it declares.
pub open spec fn parsed_layout(b: Seq<u8>) -> Option<(Seq<u8>, Seq<HistorySample>)> {
    if b.len() < 8 {
        None
    } else {
        let n = spec_u64_from_le_bytes(b.subrange(0, 8)) as int;
        if b.len() < 16 + n {
            None
        } else {
            let c = spec_u64_from_le_bytes(b.subrange(8 + n, 16 + n)) as int;
            if b.len() < 16 + n + 12 * c {
                None
            } else {
                Some((b.subrange(8, 8 + n), Seq::new(c as nat, |i: int| sample_at(b, 16 + n + 12 * i))))
            }
        }
    }
}

/// Relies on `bincode::serialize`, whose default options write integers
/// at fixed width in little-endian order and a vector as its length (`u64`)
/// followed by its elements; a pair is its two parts in order. Those options
/// set no size limit, and a vector always knows its length, so on a pair of
/// vectors of integers it does not fail.
#[verifier::external_body]
fn serialize_layout(layout: &DataLayout) -> (r: Result<Vec<u8>, Box<bincode::ErrorKind>>)
    ensures
        match r {
            Ok(bytes) => bytes@ == layout_bytes(layout.p@, layout.d@),
            Err(_) => false,
        },
{
    bincode::serialize(&(&layout.p, &layout.d))
}

/// Relies on `bincode::deserialize` with the same default options: it reads
/// the pair from the front of the slice, fails when the slice ends before
/// the lengths it declares are met, and ignores bytes after the pair.
#[verifier::external_body]
fn deserialize_layout(bytes: &[u8]) -> (r: Result<DataLayout, Box<bincode::ErrorKind>>)
    ensures
        match parsed_layout(bytes@) {
            Some((p, d)) => match r {
                Ok(l) => l.p@ == p && l.d@ == d,
                Err(_) => false,
            },
            None => r is Err,
        },
{
    bincode::deserialize::<(Vec<u8>, Vec<HistorySample>)>(bytes).map(|(p, d)| DataLayout { p, d })
}

impl DataLayout {
    /// The container's bytes.
    pub fn to_bytes(&self) -> (r: Vec<u8>)
        ensures
            r@ == layout_bytes(self.p@, self.d@),
    {
        match serialize_layout(self) {
            Ok(bytes) => bytes,
            Err(_) => Vec::new(),
        }
    }

    /// The container at the front of `bytes`, or `None` when `bytes` is too
    /// short for the lengths it declares.
    pub fn from_bytes(bytes: &[u8]) -> (r: Option<DataLayout>)
        ensures
            match parsed_layout(bytes@) {
                Some((p, d)) => match r {
                    Some(l) => l.p@ == p && l.d@ == d,
                    None => false,
                },
                None => r is None,
            },
    {
        match deserialize_layout(bytes) {
            Ok(layout) => Some(layout),
            Err(_) => None,
        }
    }
}

proof fn lemma_samples_bytes(d: Seq<HistorySample>)
    ensures
        samples_bytes(d).len() == 12 * d.len(),
        forall|i: int|
            0 <= i < d.len() ==> #[trigger] samples_bytes(d).subrange(12 * i, 12 * i + 12)
                == sample_bytes(d[i]),
    decreases d.len(),
{
    vstd::bytes::lemma_auto_spec_u32_to_from_le_bytes();
    if d.len() > 0 {
        let prev = d.drop_last();
        lemma_samples_bytes(prev);
        let s = samples_bytes(d);
        assert forall|i: int| 0 <= i < d.len() implies #[trigger] s.subrange(12 * i, 12 * i + 12)
            == sample_bytes(d[i]) by {
            if i < prev.len() {
                assert(s.subrange(12 * i, 12 * i + 12) =~= samples_bytes(prev).subrange(
                    12 * i,
                    12 * i + 12,
                ));
            } else {
                assert(s.subrange(12 * i, 12 * i + 12) =~= sample_bytes(d.last()));
            }
        }
    }
}

/// Reading a container back gives the blob and the history that were put
/// in it, element for element and in order.
pub proof fn lemma_layout_round_trip(p: Seq<u8>, d: Seq<HistorySample>)
    requires
        p.len() <= u64::MAX,
        d.len() <= u64::MAX,
    ensures
        parsed_layout(layout_bytes(p, d)) == Some((p, d)),
{
    vstd::bytes::lemma_auto_spec_u32_to_from_le_bytes();
    vstd::bytes::lemma_auto_spec_u64_to_from_le_bytes();
    lemma_samples_bytes(d);
    let b = layout_bytes(p, d);
    let n = p.len() as int;
    let s = samples_bytes(d);
    assert(b.subrange(0, 8) =~= spec_u64_to_le_bytes(p.len() as u64));
    assert(b.subrange(8, 8 + n) =~= p);
    assert(b.subrange(8 + n, 16 + n) =~= spec_u64_to_le_bytes(d.len() as u64));
    let got = Seq::new(d.len(), |i: int| sample_at(b, 16 + n + 12 * i));
    assert forall|i: int| 0 <= i < d.len() implies got[i] == d[i] by {
        let at = 16 + n + 12 * i;
        let sb = s.subrange(12 * i, 12 * i + 12);
        assert(sb == sample_bytes(d[i]));
        assert(b.subrange(at, at + 4) =~= sb.subrange(0, 4));
        assert(b.subrange(at + 4, at + 8) =~= sb.subrange(4, 8));
        assert(b.subrange(at + 8, at + 12) =~= sb.subrange(8, 12));
        assert(sb.subrange(0, 4) =~= spec_u32_to_le_bytes(d[i].0));
        assert(sb.subrange(4, 8) =~= spec_u32_to_le_bytes(d[i].1));
        assert(sb.subrange(8, 12) =~= spec_u32_to_le_bytes(d[i].2));
    }
    assert(got =~= d);
}

} // verus!
