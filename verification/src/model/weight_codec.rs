//! The `model.bin` weight file format.
//!
//! Layout (all integers little-endian): the magic `TMLLWGHT`, the format
//! version (u32, 1), the tensor count (u32), then per tensor in increasing
//! name order: the UTF-8 name length (u32) and bytes, a dtype tag (u8: 1 F32,
//! 2 F16, 3 INT8), the rank (u32), each dimension (u64), the element count
//! (u64) and the elements.
use vstd::prelude::*;
use vstd::bytes::*;
use vstd::utf8::*;

use crate::error::{Result, TinyError};
use crate::model::weights::{
    insert_error_text, lemma_numel_prefix, names_distinct, overflow_text, seq_to_map, shape_numel, numel_fits,
    valid_weight, ModelWeights, WeightData, WeightTensor, WeightValues, WeightView,
};
use crate::text::{decimal, push_decimal, push_str, string_from_utf8};

verus! {

broadcast use vstd::utf8::group_utf8_lib;

/// Version written to and accepted from weight files.
pub const VERSION: u32 = 1;
/// Tag of F32 tensors.
pub const DTYPE_F32: u8 = 1;
/// Tag of F16 tensors.
pub const DTYPE_F16: u8 = 2;
/// Tag of INT8 tensors.
pub const DTYPE_I8: u8 = 3;
/// Largest accepted rank.
pub const MAX_RANK: u32 = 16;
/// Largest accepted name length in bytes.
pub const MAX_NAME_LEN: u32 = 1024;

/// The eight magic bytes `TMLLWGHT`.
pub open spec fn magic() -> Seq<u8> {
    seq![84u8, 77u8, 76u8, 76u8, 87u8, 71u8, 72u8, 84u8]
}

/// The dtype tag of stored values.
pub open spec fn dtype_tag(v: WeightValues) -> u8 {
    match v {
        WeightValues::F32(_) => DTYPE_F32,
        WeightValues::F16(_) => DTYPE_F16,
        WeightValues::I8(_) => DTYPE_I8,
    }
}

/// Little-endian bytes of consecutive u32 values.
pub open spec fn bytes_u32s(s: Seq<u32>) -> Seq<u8> {
    Seq::new(4 * s.len(), |k: int| spec_u32_to_le_bytes(s[k / 4])[k % 4])
}

/// Little-endian bytes of consecutive u16 values.
pub open spec fn bytes_u16s(s: Seq<u16>) -> Seq<u8> {
    Seq::new(2 * s.len(), |k: int| spec_u16_to_le_bytes(s[k / 2])[k % 2])
}

/// Two's-complement bytes of i8 values.
pub open spec fn bytes_i8s(s: Seq<i8>) -> Seq<u8> {
    Seq::new(s.len(), |k: int| s[k] as u8)
}

/// Little-endian u64 bytes of consecutive dimensions.
pub open spec fn bytes_dims(s: Seq<usize>) -> Seq<u8> {
    Seq::new(8 * s.len(), |k: int| spec_u64_to_le_bytes(s[k / 8] as u64)[k % 8])
}

/// The element bytes of stored values.
pub open spec fn values_bytes(v: WeightValues) -> Seq<u8> {
    match v {
        WeightValues::F32(s) => bytes_u32s(s),
        WeightValues::F16(s) => bytes_u16s(s),
        WeightValues::I8(s) => bytes_i8s(s),
    }
}

/// The record of one tensor.
pub open spec fn entry_bytes(e: (Seq<char>, WeightView)) -> Seq<u8> {
    let name = encode_utf8(e.0);
    spec_u32_to_le_bytes(name.len() as u32) + name + seq![dtype_tag(e.1.values)]
        + spec_u32_to_le_bytes(e.1.shape.len() as u32) + bytes_dims(e.1.shape)
        + spec_u64_to_le_bytes(e.1.values.len() as u64) + values_bytes(e.1.values)
}

/// The records of consecutive tensors.
pub open spec fn entries_bytes(s: Seq<(Seq<char>, WeightView)>) -> Seq<u8>
    decreases s.len(),
{
    if s.len() == 0 {
        Seq::empty()
    } else {
        entry_bytes(s[0]) + entries_bytes(s.drop_first())
    }
}

/// The whole file for the given entries.
pub open spec fn file_bytes(s: Seq<(Seq<char>, WeightView)>) -> Seq<u8> {
    magic() + spec_u32_to_le_bytes(VERSION) + spec_u32_to_le_bytes(s.len() as u32) + entries_bytes(s)
}

/// Whether the name length and rank of `e` fit their u32 fields.
pub open spec fn entry_encodable(e: (Seq<char>, WeightView)) -> bool {
    encode_utf8(e.0).len() <= u32::MAX && e.1.shape.len() <= u32::MAX
}

/// Whether `k` is the first entry of `s` whose lengths do not fit.
pub open spec fn first_unencodable_at(s: Seq<(Seq<char>, WeightView)>, k: int) -> bool {
    &&& 0 <= k < s.len()
    &&& !entry_encodable(s[k])
    &&& forall|j: int| 0 <= j < k ==> #[trigger] entry_encodable(s[j])
}

/// The message refusing to encode `s`: too many entries, or else the first
/// entry whose name or rank does not fit.
pub open spec fn encode_error_text(s: Seq<(Seq<char>, WeightView)>) -> Seq<char> {
    if s.len() > u32::MAX {
        "too many tensors"@
    } else {
        let k = choose|k: int| first_unencodable_at(s, k);
        if encode_utf8(s[k].0).len() > u32::MAX {
            "weight name too long: "@ + s[k].0
        } else {
            "weight rank too large: "@ + s[k].0
        }
    }
}

proof fn lemma_first_unencodable(s: Seq<(Seq<char>, WeightView)>, k: int)
    requires
        first_unencodable_at(s, k),
    ensures
        (choose|c: int| first_unencodable_at(s, c)) == k,
{
    let c = choose|c: int| first_unencodable_at(s, c);
    assert(first_unencodable_at(s, c));
    if c < k {
        assert(entry_encodable(s[c]));
    } else if c > k {
        assert(entry_encodable(s[k]));
    }
}

/// Whether the counts and lengths of `s` fit the fields that hold them.
pub open spec fn encodable(s: Seq<(Seq<char>, WeightView)>) -> bool {
    &&& s.len() <= u32::MAX
    &&& forall|i: int| 0 <= i < s.len() ==> #[trigger] entry_encodable(s[i])
}

/// The u32 stored little-endian at `pos`, if four bytes are there.
pub open spec fn read_u32(b: Seq<u8>, pos: int) -> Option<u32> {
    if 0 <= pos && pos + 4 <= b.len() {
        Some(spec_u32_from_le_bytes(b.subrange(pos, pos + 4)))
    } else {
        None
    }
}

/// The u64 stored little-endian at `pos`, if eight bytes are there.
pub open spec fn read_u64(b: Seq<u8>, pos: int) -> Option<u64> {
    if 0 <= pos && pos + 8 <= b.len() {
        Some(spec_u64_from_le_bytes(b.subrange(pos, pos + 8)))
    } else {
        None
    }
}

/// The `i`-th dimension of a dimension list starting at `pos`.
pub open spec fn dim_at(b: Seq<u8>, pos: int, i: int) -> u64 {
    spec_u64_from_le_bytes(b.subrange(pos + 8 * i, pos + 8 * i + 8))
}

/// The `rank` dimensions at `pos`, each of which must be positive and fit `usize`.
pub open spec fn parse_dims(b: Seq<u8>, pos: int, rank: nat) -> Option<Seq<usize>> {
    if 0 <= pos && pos + 8 * rank <= b.len() && forall|i: int|
        0 <= i < rank ==> 0 < #[trigger] dim_at(b, pos, i) <= usize::MAX {
        Some(Seq::new(rank, |i: int| dim_at(b, pos, i) as usize))
    } else {
        None
    }
}

/// Bytes taken by `count` elements of type `tag`.
pub open spec fn elem_bytes(tag: u8, count: int) -> int {
    if tag == DTYPE_F32 {
        4 * count
    } else if tag == DTYPE_F16 {
        2 * count
    } else {
        count
    }
}

/// The `count` elements of type `tag` stored at `pos`.
pub open spec fn parse_values(b: Seq<u8>, pos: int, tag: u8, count: nat) -> WeightValues {
    if tag == DTYPE_F32 {
        WeightValues::F32(
            Seq::new(count, |i: int| spec_u32_from_le_bytes(b.subrange(pos + 4 * i, pos + 4 * i + 4))),
        )
    } else if tag == DTYPE_F16 {
        WeightValues::F16(
            Seq::new(count, |i: int| spec_u16_from_le_bytes(b.subrange(pos + 2 * i, pos + 2 * i + 2))),
        )
    } else {
        WeightValues::I8(Seq::new(count, |i: int| b[pos + i] as i8))
    }
}

/// The tensor record at `pos` and the position after it.
pub open spec fn parse_entry(b: Seq<u8>, pos: int) -> Option<((Seq<char>, WeightView), int)> {
    match read_u32(b, pos) {
        None => None,
        Some(n) => {
            let p1 = pos + 4 + n;
            let name_bytes = b.subrange(pos + 4, p1);
            if !(0 < n <= MAX_NAME_LEN && p1 < b.len() && valid_utf8(name_bytes)) {
                None
            } else {
                let tag = b[p1];
                if !(DTYPE_F32 <= tag <= DTYPE_I8) {
                    None
                } else {
                    match read_u32(b, p1 + 1) {
                        None => None,
                        Some(rank) => {
                            if !(0 < rank <= MAX_RANK) {
                                None
                            } else {
                                match parse_dims(b, p1 + 5, rank as nat) {
                                    None => None,
                                    Some(dims) => {
                                        let p2 = p1 + 5 + 8 * rank;
                                        match read_u64(b, p2) {
                                            None => None,
                                            Some(count) => {
                                                let p3 = p2 + 8;
                                                if count <= usize::MAX && numel_fits(dims)
                                                    && count == shape_numel(dims) && elem_bytes(
                                                    tag,
                                                    count as int,
                                                ) <= usize::MAX && p3 + elem_bytes(tag, count as int)
                                                    <= b.len() {
                                                    Some(
                                                        (
                                                            (
                                                                decode_utf8(name_bytes),
                                                                WeightView {
                                                                    shape: dims,
                                                                    values: parse_values(
                                                                        b,
                                                                        p3,
                                                                        tag,
                                                                        count as nat,
                                                                    ),
                                                                },
                                                            ),
                                                            p3 + elem_bytes(tag, count as int),
                                                        ),
                                                    )
                                                } else {
                                                    None
                                                }
                                            },
                                        }
                                    },
                                }
                            }
                        },
                    }
                }
            }
        },
    }
}

/// Why weight file content does not read.
pub enum ReadFailure {
    /// The content ends inside a field.
    Truncated,
    /// A field holds a value the format refuses, or a name repeats: the message.
    Format(Seq<char>),
}

/// Whether `e` reports the failure `f`.
pub open spec fn reports_read(e: TinyError, f: ReadFailure) -> bool {
    match f {
        ReadFailure::Truncated => e matches TinyError::Io(m) && m@ == "failed to fill whole buffer"@,
        ReadFailure::Format(t) => e matches TinyError::ModelFormat(m) && m@ == t,
    }
}

/// The first failure among dimensions `i..rank` of the list at `pos`, read
/// one at a time: missing bytes, a value too large for `usize`, or zero.
pub open spec fn dims_failure(b: Seq<u8>, pos: int, name: Seq<char>, i: nat, rank: nat) -> Option<ReadFailure>
    decreases rank - i,
{
    if i >= rank {
        None
    } else if pos + 8 * i + 8 > b.len() {
        Some(ReadFailure::Truncated)
    } else if dim_at(b, pos, i as int) > usize::MAX {
        Some(ReadFailure::Format("dimension too large for weight "@ + name))
    } else if dim_at(b, pos, i as int) == 0 {
        Some(ReadFailure::Format("weight "@ + name + " has a zero-sized dimension"@))
    } else {
        dims_failure(b, pos, name, i + 1, rank)
    }
}

/// Why the record at `pos` does not read, its fields checked in order.
pub open spec fn entry_failure(b: Seq<u8>, pos: int) -> Option<ReadFailure> {
    match read_u32(b, pos) {
        None => Some(ReadFailure::Truncated),
        Some(n) => {
            let p1 = pos + 4 + n;
            if !(0 < n <= MAX_NAME_LEN) {
                Some(ReadFailure::Format("invalid weight name length "@ + decimal(n as nat)))
            } else if p1 > b.len() {
                Some(ReadFailure::Truncated)
            } else if !valid_utf8(b.subrange(pos + 4, p1)) {
                Some(ReadFailure::Format("invalid UTF-8 weight name"@))
            } else if p1 >= b.len() {
                Some(ReadFailure::Truncated)
            } else {
                let name = decode_utf8(b.subrange(pos + 4, p1));
                let tag = b[p1];
                if !(DTYPE_F32 <= tag <= DTYPE_I8) {
                    Some(ReadFailure::Format("unsupported dtype "@ + decimal(tag as nat) + " for weight "@ + name))
                } else {
                    match read_u32(b, p1 + 1) {
                        None => Some(ReadFailure::Truncated),
                        Some(rank) => if !(0 < rank <= MAX_RANK) {
                            Some(ReadFailure::Format("invalid rank "@ + decimal(rank as nat) + " for weight "@ + name))
                        } else {
                            match dims_failure(b, p1 + 5, name, 0, rank as nat) {
                                Some(f) => Some(f),
                                None => {
                                    let dims = Seq::new(rank as nat, |i: int| dim_at(b, p1 + 5, i) as usize);
                                    let p2 = p1 + 5 + 8 * rank;
                                    match read_u64(b, p2) {
                                        None => Some(ReadFailure::Truncated),
                                        Some(count) => if count > usize::MAX {
                                            Some(ReadFailure::Format("weight "@ + name + " is too large"@))
                                        } else if !numel_fits(dims) {
                                            Some(ReadFailure::Format(overflow_text(dims)))
                                        } else if count != shape_numel(dims) {
                                            Some(ReadFailure::Format("weight "@ + name + " declares an invalid element count"@))
                                        } else if elem_bytes(tag, count as int) > usize::MAX {
                                            Some(ReadFailure::Format("weight byte size overflow: "@ + name))
                                        } else if p2 + 8 + elem_bytes(tag, count as int) > b.len() {
                                            Some(ReadFailure::Truncated)
                                        } else {
                                            None
                                        }
                                    }
                                },
                            }
                        },
                    }
                }
            }
        },
    }
}

/// The first failure among `k` records from `pos`, given the names `seen`
/// before them: a record that does not read, or a name read before.
pub open spec fn entries_failure(b: Seq<u8>, pos: int, k: nat, seen: Set<Seq<char>>) -> Option<ReadFailure>
    decreases k,
{
    if k == 0 {
        None
    } else {
        match parse_entry(b, pos) {
            None => entry_failure(b, pos),
            Some((e, next)) => if seen.contains(e.0) {
                Some(ReadFailure::Format(insert_error_text(e.0, e.1)))
            } else {
                entries_failure(b, next, (k - 1) as nat, seen.insert(e.0))
            },
        }
    }
}

/// Why weight file content does not read: the magic, the version, the
/// record count, then the records in order.
pub open spec fn file_failure(b: Seq<u8>) -> Option<ReadFailure> {
    if b.len() < 8 {
        Some(ReadFailure::Truncated)
    } else if b.subrange(0, 8) != magic() {
        Some(ReadFailure::Format("invalid model weight magic"@))
    } else {
        match read_u32(b, 8) {
            None => Some(ReadFailure::Truncated),
            Some(v) => if v != VERSION {
                Some(ReadFailure::Format("unsupported weight format version"@))
            } else {
                match read_u32(b, 12) {
                    None => Some(ReadFailure::Truncated),
                    Some(k) => entries_failure(b, 16, k as nat, Set::empty()),
                }
            },
        }
    }
}

/// The `k` consecutive tensor records starting at `pos`.
pub open spec fn parse_entries(b: Seq<u8>, pos: int, k: nat) -> Option<Seq<(Seq<char>, WeightView)>>
    decreases k,
{
    if k == 0 {
        Some(Seq::empty())
    } else {
        match parse_entry(b, pos) {
            None => None,
            Some((e, next)) => match parse_entries(b, next, (k - 1) as nat) {
                None => None,
                Some(rest) => Some(seq![e] + rest),
            },
        }
    }
}

/// The tensor records of a weight file, when it is well formed.
pub open spec fn parse_file(b: Seq<u8>) -> Option<Seq<(Seq<char>, WeightView)>> {
    if b.len() >= 16 && b.subrange(0, 8) == magic() && read_u32(b, 8) == Some(VERSION) {
        parse_entries(b, 16, read_u32(b, 12)->0 as nat)
    } else {
        None
    }
}

proof fn lemma_entries_bytes_push(s: Seq<(Seq<char>, WeightView)>, i: int)
    requires
        0 <= i < s.len(),
    ensures
        entries_bytes(s.take(i + 1)) == entries_bytes(s.take(i)) + entry_bytes(s[i]),
    decreases i,
{
    if i == 0 {
        assert(s.take(1).drop_first() =~= Seq::<(Seq<char>, WeightView)>::empty());
        assert(entries_bytes(s.take(0)) =~= Seq::<u8>::empty());
        assert(entries_bytes(s.take(1).drop_first()) =~= Seq::<u8>::empty());
        assert(s.take(1)[0] == s[0]);
        assert(entries_bytes(s.take(1)) =~= entry_bytes(s[0]) + Seq::<u8>::empty());
    } else {
        let t = s.drop_first();
        lemma_entries_bytes_push(t, i - 1);
        assert(s.take(i + 1).drop_first() =~= t.take(i));
        assert(s.take(i).drop_first() =~= t.take(i - 1));
        assert(s.take(i + 1)[0] == s[0]);
        assert(s.take(i)[0] == s[0]);
        assert(t[i - 1] == s[i]);
    }
}

proof fn lemma_bytes_u32s_push(s: Seq<u32>, i: int)
    requires
        0 <= i < s.len(),
    ensures
        bytes_u32s(s.take(i + 1)) == bytes_u32s(s.take(i)) + spec_u32_to_le_bytes(s[i]),
{
    lemma_auto_spec_u32_to_from_le_bytes();
    let a = bytes_u32s(s.take(i + 1));
    let b = bytes_u32s(s.take(i)) + spec_u32_to_le_bytes(s[i]);
    assert forall|k: int| 0 <= k < a.len() implies a[k] == b[k] by {
        if k < 4 * i {
            assert(k / 4 < i);
        } else {
            assert(k / 4 == i);
            assert(k % 4 == k - 4 * i);
        }
    }
    assert(a =~= b);
}

proof fn lemma_bytes_u16s_push(s: Seq<u16>, i: int)
    requires
        0 <= i < s.len(),
    ensures
        bytes_u16s(s.take(i + 1)) == bytes_u16s(s.take(i)) + spec_u16_to_le_bytes(s[i]),
{
    lemma_auto_spec_u16_to_from_le_bytes();
    let a = bytes_u16s(s.take(i + 1));
    let b = bytes_u16s(s.take(i)) + spec_u16_to_le_bytes(s[i]);
    assert forall|k: int| 0 <= k < a.len() implies a[k] == b[k] by {
        if k < 2 * i {
            assert(k / 2 < i);
        } else {
            assert(k / 2 == i);
            assert(k % 2 == k - 2 * i);
        }
    }
    assert(a =~= b);
}

proof fn lemma_bytes_dims_push(s: Seq<usize>, i: int)
    requires
        0 <= i < s.len(),
    ensures
        bytes_dims(s.take(i + 1)) == bytes_dims(s.take(i)) + spec_u64_to_le_bytes(s[i] as u64),
{
    lemma_auto_spec_u64_to_from_le_bytes();
    let a = bytes_dims(s.take(i + 1));
    let b = bytes_dims(s.take(i)) + spec_u64_to_le_bytes(s[i] as u64);
    assert forall|k: int| 0 <= k < a.len() implies a[k] == b[k] by {
        if k < 8 * i {
            assert(k / 8 < i);
        } else {
            assert(k / 8 == i);
            assert(k % 8 == k - 8 * i);
        }
    }
    assert(a =~= b);
}

/// Appends `x` in little-endian order.
fn u32w(out: &mut Vec<u8>, x: u32)
    ensures
        final(out)@ == old(out)@ + spec_u32_to_le_bytes(x),
{
    let mut b = u32_to_le_bytes(x);
    out.append(&mut b);
}

/// Appends `x` in little-endian order.
fn u64w(out: &mut Vec<u8>, x: u64)
    ensures
        final(out)@ == old(out)@ + spec_u64_to_le_bytes(x),
{
    let mut b = u64_to_le_bytes(x);
    out.append(&mut b);
}

/// Appends the element bytes of `data`.
fn push_values(out: &mut Vec<u8>, data: &WeightData)
    ensures
        final(out)@ == old(out)@ + values_bytes(data@),
{
    match data {
        WeightData::F32(v) => {
            let mut i: usize = 0;
            assert(bytes_u32s(v@.take(0)) =~= Seq::<u8>::empty());
            while i < v.len()
                invariant
                    0 <= i <= v.len(),
                    out@ == old(out)@ + bytes_u32s(v@.take(i as int)),
                decreases v.len() - i,
            {
                proof {
                    lemma_bytes_u32s_push(v@, i as int);
                }
                u32w(out, v[i]);
                i = i + 1;
            }
            assert(v@.take(i as int) =~= v@);
        },
        WeightData::F16(v) => {
            let mut i: usize = 0;
            assert(bytes_u16s(v@.take(0)) =~= Seq::<u8>::empty());
            while i < v.len()
                invariant
                    0 <= i <= v.len(),
                    out@ == old(out)@ + bytes_u16s(v@.take(i as int)),
                decreases v.len() - i,
            {
                proof {
                    lemma_bytes_u16s_push(v@, i as int);
                }
                let mut b = u16_to_le_bytes(v[i]);
                out.append(&mut b);
                i = i + 1;
            }
            assert(v@.take(i as int) =~= v@);
        },
        WeightData::I8(v) => {
            let mut i: usize = 0;
            while i < v.len()
                invariant
                    0 <= i <= v.len(),
                    out@ == old(out)@ + bytes_i8s(v@.take(i as int)),
                decreases v.len() - i,
            {
                assert(bytes_i8s(v@.take(i + 1)) =~= bytes_i8s(v@.take(i as int)).push(v@[i as int] as u8));
                out.push(v[i] as u8);
                i = i + 1;
            }
            assert(v@.take(i as int) =~= v@);
        },
    }
}

/// The tag of stored data.
fn data_tag(data: &WeightData) -> (t: u8)
    ensures
        t == dtype_tag(data@),
{
    match data {
        WeightData::F32(_) => DTYPE_F32,
        WeightData::F16(_) => DTYPE_F16,
        WeightData::I8(_) => DTYPE_I8,
    }
}

/// Appends the record of one tensor.
fn push_entry(out: &mut Vec<u8>, name: &String, t: &WeightTensor)
    requires
        encode_utf8(name@).len() <= u32::MAX,
        t.shape@.len() <= u32::MAX,
    ensures
        final(out)@ == old(out)@ + entry_bytes((name@, t@)),
{
    let name_bytes = name.as_str().as_bytes();
    assert(name_bytes@ == encode_utf8(name@));
    u32w(out, name_bytes.len() as u32);
    let ghost mid = out@;
    let mut i: usize = 0;
    while i < name_bytes.len()
        invariant
            0 <= i <= name_bytes@.len(),
            out@ == mid + name_bytes@.take(i as int),
        decreases name_bytes.len() - i,
    {
        assert(name_bytes@.take(i + 1) =~= name_bytes@.take(i as int).push(name_bytes@[i as int]));
        out.push(name_bytes[i]);
        i = i + 1;
    }
    assert(name_bytes@.take(i as int) =~= name_bytes@);
    out.push(data_tag(&t.data));
    u32w(out, t.shape.len() as u32);
    let ghost mid2 = out@;
    let mut j: usize = 0;
    assert(bytes_dims(t.shape@.take(0)) =~= Seq::<u8>::empty());
    while j < t.shape.len()
        invariant
            0 <= j <= t.shape@.len(),
            out@ == mid2 + bytes_dims(t.shape@.take(j as int)),
        decreases t.shape.len() - j,
    {
        proof {
            lemma_bytes_dims_push(t.shape@, j as int);
        }
        u64w(out, t.shape[j] as u64);
        j = j + 1;
    }
    assert(t.shape@.take(j as int) =~= t.shape@);
    u64w(out, t.data.len() as u64);
    push_values(out, &t.data);
    assert(out@ =~= old(out)@ + entry_bytes((name@, t@)));
}

/// The u32 stored little-endian at `pos`.
fn u32r(b: &[u8], pos: usize) -> (r: Option<u32>)
    ensures
        r == read_u32(b@, pos as int),
{
    if pos <= b.len() && b.len() - pos >= 4 {
        Some(u32_from_le_bytes(vstd::slice::slice_subrange(b, pos, pos + 4)))
    } else {
        None
    }
}

/// The u64 stored little-endian at `pos`.
fn u64r(b: &[u8], pos: usize) -> (r: Option<u64>)
    ensures
        r == read_u64(b@, pos as int),
{
    if pos <= b.len() && b.len() - pos >= 8 {
        Some(u64_from_le_bytes(vstd::slice::slice_subrange(b, pos, pos + 8)))
    } else {
        None
    }
}

fn truncated() -> (e: TinyError)
    ensures
        reports_read(e, ReadFailure::Truncated),
{
    TinyError::Io("failed to fill whole buffer".to_string())
}

/// `prefix`, then `name`, then `suffix`, as a format error.
fn format_error(prefix: &str, name: &str, suffix: &str) -> (e: TinyError)
    ensures
        e matches TinyError::ModelFormat(m) && m@ == prefix@ + name@ + suffix@,
{
    let mut m = prefix.to_string();
    push_str(&mut m, name);
    push_str(&mut m, suffix);
    TinyError::ModelFormat(m)
}

/// Reads the `rank` dimensions at `pos`, one at a time, for weight `name`.
fn read_dims(b: &[u8], pos: usize, rank: usize, name: &str) -> (r: Result<Vec<usize>>)
    requires
        0 < rank <= 16,
    ensures
        r matches Ok(d) ==> parse_dims(b@, pos as int, rank as nat) == Some(d@) && dims_failure(
            b@,
            pos as int,
            name@,
            0,
            rank as nat,
        ) is None,
        r matches Err(e) ==> dims_failure(b@, pos as int, name@, 0, rank as nat) matches Some(f) && reports_read(e, f),
        r is Err ==> parse_dims(b@, pos as int, rank as nat) is None,
{
    let mut dims: Vec<usize> = Vec::new();
    let mut i: usize = 0;
    let blen = b.len();
    while i < rank
        invariant
            blen == b@.len(),
            0 < rank <= 16,
            0 <= i <= rank,
            i > 0 ==> pos + 8 * i <= b@.len(),
            dims@.len() == i,
            dims_failure(b@, pos as int, name@, 0, rank as nat) == dims_failure(b@, pos as int, name@, i as nat, rank as nat),
            forall|j: int| 0 <= j < i ==> 0 < #[trigger] dim_at(b@, pos as int, j) <= usize::MAX
                && dims@[j] == dim_at(b@, pos as int, j) as usize,
        decreases rank - i,
    {
        if pos > blen || blen - pos < 8 * i + 8 {
            return Err(truncated());
        }
        let at = pos + 8 * i;
        let d = u64_from_le_bytes(vstd::slice::slice_subrange(b, at, at + 8));
        assert(d == dim_at(b@, pos as int, i as int));
        if d > usize::MAX as u64 {
            proof {
                reveal_strlit("");
            }
            assert(name@ + ""@ =~= name@);
            return Err(format_error("dimension too large for weight ", name, ""));
        }
        if d == 0 {
            return Err(format_error("weight ", name, " has a zero-sized dimension"));
        }
        dims.push(d as usize);
        i = i + 1;
    }
    assert(dims@ =~= Seq::new(rank as nat, |i: int| dim_at(b@, pos as int, i) as usize));
    Ok(dims)
}

/// Reads `count` elements of type `tag` stored at `pos`.
fn read_values(b: &[u8], pos: usize, tag: u8, count: usize) -> (v: WeightData)
    requires
        DTYPE_F32 <= tag <= DTYPE_I8,
        pos + elem_bytes(tag, count as int) <= b@.len(),
    ensures
        v@ == parse_values(b@, pos as int, tag, count as nat),
{
    if tag == DTYPE_F32 {
        let mut out: Vec<u32> = Vec::new();
        let mut i: usize = 0;
        let blen = b.len();
        while i < count
            invariant
                blen == b@.len(),
                pos + 4 * count <= b@.len(),
                0 <= i <= count,
                out@ == Seq::new(i as nat, |j: int| spec_u32_from_le_bytes(b@.subrange(pos + 4 * j, pos + 4 * j + 4))),
            decreases count - i,
        {
            let at = pos + 4 * i;
            let x = u32_from_le_bytes(vstd::slice::slice_subrange(b, at, at + 4));
            out.push(x);
            i = i + 1;
            assert(out@ =~= Seq::new(i as nat, |j: int| spec_u32_from_le_bytes(b@.subrange(pos + 4 * j, pos + 4 * j + 4))));
        }
        WeightData::F32(out)
    } else if tag == DTYPE_F16 {
        let mut out: Vec<u16> = Vec::new();
        let mut i: usize = 0;
        let blen = b.len();
        while i < count
            invariant
                blen == b@.len(),
                pos + 2 * count <= b@.len(),
                0 <= i <= count,
                out@ == Seq::new(i as nat, |j: int| spec_u16_from_le_bytes(b@.subrange(pos + 2 * j, pos + 2 * j + 2))),
            decreases count - i,
        {
            let at = pos + 2 * i;
            let x = u16_from_le_bytes(vstd::slice::slice_subrange(b, at, at + 2));
            out.push(x);
            i = i + 1;
            assert(out@ =~= Seq::new(i as nat, |j: int| spec_u16_from_le_bytes(b@.subrange(pos + 2 * j, pos + 2 * j + 2))));
        }
        WeightData::F16(out)
    } else {
        let mut out: Vec<i8> = Vec::new();
        let mut i: usize = 0;
        let blen = b.len();
        while i < count
            invariant
                blen == b@.len(),
                pos + count <= b@.len(),
                0 <= i <= count,
                out@ == Seq::new(i as nat, |j: int| b@[pos + j] as i8),
            decreases count - i,
        {
            out.push(#[verifier::truncate] (b[pos + i] as i8));
            i = i + 1;
            assert(out@ =~= Seq::new(i as nat, |j: int| b@[pos + j] as i8));
        }
        WeightData::I8(out)
    }
}

/// Reads the tensor record at `pos`, its fields checked in order.
fn read_entry(b: &[u8], pos: usize) -> (r: Result<(String, Vec<usize>, WeightData, usize)>)
    ensures
        r is Ok <==> parse_entry(b@, pos as int) is Some,
        r matches Ok(e) ==> parse_entry(b@, pos as int) == Some(
            ((e.0@, WeightView { shape: e.1@, values: e.2@ }), e.3 as int),
        ),
        r matches Err(e) ==> entry_failure(b@, pos as int) matches Some(f) && reports_read(e, f),
{
    let n = match u32r(b, pos) {
        Some(n) => n,
        None => {
            return Err(truncated());
        },
    };
    if n == 0 || n > MAX_NAME_LEN {
        let mut m = "invalid weight name length ".to_string();
        push_decimal(&mut m, n as usize);
        return Err(TinyError::ModelFormat(m));
    }
    let n = n as usize;
    if b.len() - pos - 4 < n {
        return Err(truncated());
    }
    let p1 = pos + 4 + n;
    let name_bytes = vstd::slice::slice_to_vec(vstd::slice::slice_subrange(b, pos + 4, p1));
    let name = match string_from_utf8(name_bytes) {
        Some(s) => s,
        None => {
            return Err(TinyError::ModelFormat("invalid UTF-8 weight name".to_string()));
        },
    };
    if p1 >= b.len() {
        return Err(truncated());
    }
    let tag = b[p1];
    if tag < DTYPE_F32 || tag > DTYPE_I8 {
        let mut m = "unsupported dtype ".to_string();
        push_decimal(&mut m, tag as usize);
        push_str(&mut m, " for weight ");
        push_str(&mut m, name.as_str());
        return Err(TinyError::ModelFormat(m));
    }
    let rank = match u32r(b, p1 + 1) {
        Some(r) => r,
        None => {
            return Err(truncated());
        },
    };
    if rank == 0 || rank > MAX_RANK {
        let mut m = "invalid rank ".to_string();
        push_decimal(&mut m, rank as usize);
        push_str(&mut m, " for weight ");
        push_str(&mut m, name.as_str());
        return Err(TinyError::ModelFormat(m));
    }
    let rank = rank as usize;
    let dims = match read_dims(b, p1 + 5, rank, name.as_str()) {
        Ok(d) => d,
        Err(e) => {
            return Err(e);
        },
    };
    let p2 = p1 + 5 + 8 * rank;
    let count = match u64r(b, p2) {
        Some(c) => c,
        None => {
            return Err(truncated());
        },
    };
    if count > usize::MAX as u64 {
        return Err(format_error("weight ", name.as_str(), " is too large"));
    }
    let count = count as usize;
    let numel = match crate::model::weights::checked_numel(dims.as_slice()) {
        Ok(x) => x,
        Err(e) => {
            return Err(e);
        },
    };
    if numel != count {
        return Err(format_error("weight ", name.as_str(), " declares an invalid element count"));
    }
    let size: usize = if tag == DTYPE_F32 {
        4
    } else if tag == DTYPE_F16 {
        2
    } else {
        1
    };
    let bytes = match count.checked_mul(size) {
        Some(x) => x,
        None => {
            proof {
                reveal_strlit("");
                assert(name@ + ""@ =~= name@);
            }
            return Err(format_error("weight byte size overflow: ", name.as_str(), ""));
        },
    };
    assert(bytes == elem_bytes(tag, count as int));
    let p3 = p2 + 8;
    if b.len() - p3 < bytes {
        return Err(truncated());
    }
    let values = read_values(b, p3, tag, count);
    Ok((name, dims, values, p3 + bytes))
}

/// Prepends `done` to a parse result.
pub open spec fn prepend(
    done: Seq<(Seq<char>, WeightView)>,
    o: Option<Seq<(Seq<char>, WeightView)>>,
) -> Option<Seq<(Seq<char>, WeightView)>> {
    match o {
        Some(rest) => Some(done + rest),
        None => None,
    }
}

/// Whether a valid entry can be written and read back: its name and rank are
/// within the format's limits and its element bytes fit `usize`.
pub open spec fn entry_storable(e: (Seq<char>, WeightView)) -> bool {
    &&& encode_utf8(e.0).len() <= MAX_NAME_LEN
    &&& e.1.shape.len() <= MAX_RANK
    &&& elem_bytes(dtype_tag(e.1.values), e.1.values.len() as int) <= usize::MAX
}

/// Whether every entry of `s` is storable and their count fits the header.
pub open spec fn storable(s: Seq<(Seq<char>, WeightView)>) -> bool {
    &&& s.len() <= u32::MAX
    &&& forall|i: int| 0 <= i < s.len() ==> #[trigger] entry_storable(s[i])
}

proof fn lemma_sub(b: Seq<u8>, pos: int, x: Seq<u8>, a: int, k: int)
    requires
        0 <= pos,
        pos + x.len() <= b.len(),
        b.subrange(pos, pos + x.len()) == x,
        0 <= a,
        0 <= k,
        a + k <= x.len(),
    ensures
        b.subrange(pos + a, pos + a + k) == x.subrange(a, a + k),
{
    assert forall|i: int| 0 <= i < k implies #[trigger] b.subrange(pos + a, pos + a + k)[i] == x.subrange(a, a + k)[i] by {
        assert(b.subrange(pos, pos + x.len())[a + i] == x[a + i]);
    }
    assert(b.subrange(pos + a, pos + a + k) =~= x.subrange(a, a + k));
}

proof fn lemma_parse_values_encoded(b: Seq<u8>, pos: int, v: WeightValues)
    requires
        0 <= pos,
        pos + values_bytes(v).len() <= b.len(),
        b.subrange(pos, pos + values_bytes(v).len()) == values_bytes(v),
    ensures
        parse_values(b, pos, dtype_tag(v), v.len()) == v,
        values_bytes(v).len() == elem_bytes(dtype_tag(v), v.len() as int),
{
    let x = values_bytes(v);
    match v {
        WeightValues::F32(s) => {
            lemma_auto_spec_u32_to_from_le_bytes();
            assert forall|i: int| 0 <= i < s.len() implies #[trigger] spec_u32_from_le_bytes(b.subrange(pos + 4 * i, pos + 4 * i + 4)) == s[i] by {
                lemma_sub(b, pos, x, 4 * i, 4);
                assert forall|j: int| 0 <= j < 4 implies #[trigger] x.subrange(4 * i, 4 * i + 4)[j] == spec_u32_to_le_bytes(s[i])[j] by {
                    assert((4 * i + j) / 4 == i);
                    assert((4 * i + j) % 4 == j);
                }
                assert(x.subrange(4 * i, 4 * i + 4) =~= spec_u32_to_le_bytes(s[i]));
            }
            assert(Seq::new(s.len(), |i: int| spec_u32_from_le_bytes(b.subrange(pos + 4 * i, pos + 4 * i + 4))) =~= s);
        },
        WeightValues::F16(s) => {
            lemma_auto_spec_u16_to_from_le_bytes();
            assert forall|i: int| 0 <= i < s.len() implies #[trigger] spec_u16_from_le_bytes(b.subrange(pos + 2 * i, pos + 2 * i + 2)) == s[i] by {
                lemma_sub(b, pos, x, 2 * i, 2);
                assert forall|j: int| 0 <= j < 2 implies #[trigger] x.subrange(2 * i, 2 * i + 2)[j] == spec_u16_to_le_bytes(s[i])[j] by {
                    assert((2 * i + j) / 2 == i);
                    assert((2 * i + j) % 2 == j);
                }
                assert(x.subrange(2 * i, 2 * i + 2) =~= spec_u16_to_le_bytes(s[i]));
            }
            assert(Seq::new(s.len(), |i: int| spec_u16_from_le_bytes(b.subrange(pos + 2 * i, pos + 2 * i + 2))) =~= s);
        },
        WeightValues::I8(s) => {
            assert forall|i: int| 0 <= i < s.len() implies #[trigger] s[i] == b[pos + i] as i8 by {
                assert(b.subrange(pos, pos + x.len())[i] == x[i]);
                let y = s[i];
                assert((y as u8) as i8 == y) by (bit_vector);
            }
            assert(Seq::new(s.len(), |i: int| b[pos + i] as i8) =~= s);
        },
    }
}

proof fn lemma_parse_entry_encoded(b: Seq<u8>, pos: int, e: (Seq<char>, WeightView))
    requires
        0 <= pos,
        pos + entry_bytes(e).len() <= b.len(),
        b.subrange(pos, pos + entry_bytes(e).len()) == entry_bytes(e),
        valid_weight(e.0, e.1),
        entry_storable(e),
    ensures
        parse_entry(b, pos) == Some((e, pos + entry_bytes(e).len())),
{
    lemma_auto_spec_u32_to_from_le_bytes();
    lemma_auto_spec_u64_to_from_le_bytes();
    let x = entry_bytes(e);
    let nb = encode_utf8(e.0);
    let n: int = nb.len() as int;
    let shape = e.1.shape;
    let r: int = shape.len() as int;
    let v = e.1.values;
    let tag = dtype_tag(v);
    let count = v.len();
    let dims = bytes_dims(shape);
    let vals = values_bytes(v);
    if n == 0 {
        assert(decode_utf8(nb) == e.0);
        assert(nb =~= Seq::<u8>::empty());
    }
    let le_n = spec_u32_to_le_bytes(n as u32);
    let le_r = spec_u32_to_le_bytes(r as u32);
    let le_c = spec_u64_to_le_bytes(count as u64);
    assert(x == le_n + nb + seq![tag] + le_r + dims + le_c + vals);
    lemma_sub(b, pos, x, 0, 4);
    assert(x.subrange(0, 4) =~= le_n);
    assert(read_u32(b, pos) == Some(n as u32));
    lemma_sub(b, pos, x, 4, n);
    assert(x.subrange(4, 4 + n) =~= nb);
    assert(b[pos + 4 + n] == tag) by {
        assert(b.subrange(pos, pos + x.len())[4 + n] == x[4 + n]);
    }
    lemma_sub(b, pos, x, 5 + n, 4);
    assert(x.subrange(5 + n, 9 + n) =~= le_r);
    assert(read_u32(b, pos + 4 + n + 1) == Some(r as u32));
    let dpos = pos + 9 + n;
    assert forall|i: int| 0 <= i < r implies #[trigger] dim_at(b, dpos, i) == shape[i] as u64 by {
        lemma_sub(b, pos, x, 9 + n + 8 * i, 8);
        assert forall|j: int| 0 <= j < 8 implies #[trigger] x.subrange(9 + n + 8 * i, 9 + n + 8 * i + 8)[j] == spec_u64_to_le_bytes(shape[i] as u64)[j] by {
            assert(x[9 + n + 8 * i + j] == dims[8 * i + j]);
            assert((8 * i + j) / 8 == i);
            assert((8 * i + j) % 8 == j);
        }
        assert(x.subrange(9 + n + 8 * i, 9 + n + 8 * i + 8) =~= spec_u64_to_le_bytes(shape[i] as u64));
    }
    assert(parse_dims(b, dpos, r as nat) == Some(shape)) by {
        assert(Seq::new(r as nat, |i: int| dim_at(b, dpos, i) as usize) =~= shape);
    }
    let p2 = dpos + 8 * r;
    lemma_sub(b, pos, x, 9 + n + 8 * r, 8);
    assert(x.subrange(9 + n + 8 * r, 17 + n + 8 * r) =~= le_c);
    assert(read_u64(b, p2) == Some(count as u64));
    let p3 = p2 + 8;
    lemma_sub(b, pos, x, 17 + n + 8 * r, vals.len() as int);
    assert(x.subrange(17 + n + 8 * r, 17 + n + 8 * r + vals.len()) =~= vals);
    lemma_parse_values_encoded(b, p3, v);
    assert(numel_fits(shape)) by {
        assert forall|k: int| 0 <= k <= shape.len() implies #[trigger] shape_numel(shape.take(k)) <= usize::MAX by {
            lemma_numel_prefix(shape, k);
        }
    }
}

proof fn lemma_parse_entries_encoded(b: Seq<u8>, pos: int, s: Seq<(Seq<char>, WeightView)>)
    requires
        0 <= pos,
        pos + entries_bytes(s).len() <= b.len(),
        b.subrange(pos, pos + entries_bytes(s).len()) == entries_bytes(s),
        forall|i: int| 0 <= i < s.len() ==> valid_weight(#[trigger] s[i].0, s[i].1),
        forall|i: int| 0 <= i < s.len() ==> #[trigger] entry_storable(s[i]),
    ensures
        parse_entries(b, pos, s.len()) == Some(s),
    decreases s.len(),
{
    if s.len() > 0 {
        let x = entries_bytes(s);
        let e = entry_bytes(s[0]);
        let t = s.drop_first();
        let y = entries_bytes(t);
        assert(x == e + y);
        lemma_sub(b, pos, x, 0, e.len() as int);
        assert(x.subrange(0, e.len() as int) =~= e);
        assert(valid_weight(s[0].0, s[0].1));
        assert(entry_storable(s[0]));
        lemma_parse_entry_encoded(b, pos, s[0]);
        lemma_sub(b, pos, x, e.len() as int, y.len() as int);
        assert(x.subrange(e.len() as int, (e.len() + y.len()) as int) =~= y);
        assert forall|i: int| 0 <= i < t.len() implies valid_weight(#[trigger] t[i].0, t[i].1) && entry_storable(t[i]) by {
            assert(t[i] == s[i + 1]);
        }
        lemma_parse_entries_encoded(b, pos + e.len(), t);
        assert(seq![s[0]] + t =~= s);
    }
}

/// Writing a collection and reading the bytes back gives the same entries:
/// `from_bytes` of what `to_bytes` returns succeeds with the same map, for
/// every collection whose names, ranks and sizes are within the format's limits.
pub proof fn lemma_weight_file_roundtrip(w: &ModelWeights)
    requires
        w.wf(),
        storable(w.sorted_entries()),
    ensures
        encodable(w.sorted_entries()),
        parse_file(file_bytes(w.sorted_entries())) == Some(w.sorted_entries()),
        names_distinct(w.sorted_entries()),
        seq_to_map(w.sorted_entries()) == w@,
{
    lemma_auto_spec_u32_to_from_le_bytes();
    w.lemma_sorted_entries();
    let s = w.sorted_entries();
    let b = file_bytes(s);
    let hdr = magic() + spec_u32_to_le_bytes(VERSION) + spec_u32_to_le_bytes(s.len() as u32);
    assert(b == hdr + entries_bytes(s));
    assert(hdr.len() == 16);
    assert(b.subrange(0, 8) =~= magic());
    assert(b.subrange(8, 12) =~= spec_u32_to_le_bytes(VERSION));
    assert(b.subrange(12, 16) =~= spec_u32_to_le_bytes(s.len() as u32));
    assert(b.subrange(16, (16 + entries_bytes(s).len()) as int) =~= entries_bytes(s));
    assert forall|i: int| 0 <= i < s.len() implies #[trigger] entry_encodable(s[i]) by {
        assert(entry_storable(s[i]));
    }
    lemma_parse_entries_encoded(b, 16, s);
}

/// A parsed record is a valid weight and the parse moves forward.
proof fn lemma_parsed_entry_valid(b: Seq<u8>, pos: int)
    requires
        parse_entry(b, pos) is Some,
    ensures
        parse_entry(b, pos) matches Some((e, next)) && valid_weight(e.0, e.1) && next > pos,
{
    let n = read_u32(b, pos)->0;
    let name_bytes = b.subrange(pos + 4, pos + 4 + n);
    let name = decode_utf8(name_bytes);
    if name.len() == 0 {
        assert(encode_utf8(name) == name_bytes);
        assert(name =~= Seq::<char>::empty());
        assert(encode_utf8(Seq::<char>::empty()) =~= Seq::<u8>::empty());
    }
}

impl ModelWeights {
    /// Reads a collection from weight file content.
    pub fn from_bytes(bytes: &[u8]) -> (r: Result<ModelWeights>)
        ensures
            r is Ok <==> parse_file(bytes@) is Some && names_distinct(parse_file(bytes@)->0),
            r matches Ok(w) ==> w.wf() && w@ == seq_to_map(parse_file(bytes@)->0),
            r matches Err(e) ==> file_failure(bytes@) matches Some(f) && reports_read(e, f),
    {
        if bytes.len() < 8 {
            return Err(truncated());
        }
        let head = vstd::slice::slice_subrange(bytes, 0, 8);
        if head[0] != 84u8 || head[1] != 77u8 || head[2] != 76u8 || head[3] != 76u8 || head[4] != 87u8
            || head[5] != 71u8 || head[6] != 72u8 || head[7] != 84u8 {
            assert(bytes@.subrange(0, 8) != magic());
            return Err(TinyError::ModelFormat("invalid model weight magic".to_string()));
        }
        assert(bytes@.subrange(0, 8) =~= magic());
        let version = match u32r(bytes, 8) {
            Some(v) => v,
            None => {
                return Err(truncated());
            },
        };
        if version != VERSION {
            return Err(TinyError::ModelFormat("unsupported weight format version".to_string()));
        }
        let count = match u32r(bytes, 12) {
            Some(c) => c,
            None => {
                return Err(truncated());
            },
        };
        let ghost total = parse_entries(bytes@, 16, count as nat);
        assert(parse_file(bytes@) == total);
        let mut weights = ModelWeights::new();
        let mut pos: usize = 16;
        let mut i: u32 = 0;
        let ghost mut done: Seq<(Seq<char>, WeightView)> = Seq::empty();
        assert(prepend(done, total) =~= total) by {
            if total is Some {
                assert(done + total->0 =~= total->0);
            }
        }
        while i < count
            invariant
                0 <= i <= count,
                total == parse_entries(bytes@, 16, count as nat),
                parse_file(bytes@) == total,
                total == prepend(done, parse_entries(bytes@, pos as int, (count - i) as nat)),
                weights.wf(),
                weights@ == seq_to_map(done),
                names_distinct(done),
                file_failure(bytes@) == entries_failure(bytes@, pos as int, (count - i) as nat, weights@.dom()),
            decreases count - i,
        {
            let ghost rest_k = (count - i) as nat;
            let (name, dims, values, next) = match read_entry(bytes, pos) {
                Ok(e) => e,
                Err(err) => {
                    assert(parse_entries(bytes@, pos as int, rest_k) is None);
                    return Err(err);
                },
            };
            let ghost e = (name@, WeightView { shape: dims@, values: values@ });
            proof {
                lemma_parsed_entry_valid(bytes@, pos as int);
            }
            let ghost tail = parse_entries(bytes@, next as int, (rest_k - 1) as nat);
            assert(parse_entries(bytes@, pos as int, rest_k) == match tail {
                None => None,
                Some(rest) => Some(seq![e] + rest),
            });
            match weights.insert_data(name.as_str(), dims.as_slice(), values) {
                Ok(()) => {},
                Err(err) => {
                    proof {
                        crate::model::weights::lemma_seq_to_map_dom(done, e.0);
                        let j = choose|j: int| 0 <= j < done.len() && #[trigger] done[j].0 == e.0;
                        if total is Some {
                            let all = total->0;
                            assert(all[j] == done[j]);
                            assert(all[done.len() as int] == e);
                        }
                    }
                    return Err(err);
                },
            }
            proof {
                crate::model::weights::lemma_seq_to_map_dom(done, e.0);
                assert forall|j: int| 0 <= j < done.len() implies #[trigger] done[j].0 != e.0 by {
                    if done[j].0 == e.0 {
                        assert(seq_to_map(done).dom().contains(e.0));
                    }
                }
                let nd = done.push(e);
                assert(names_distinct(nd)) by {
                    assert forall|a: int, c: int| 0 <= a < nd.len() && 0 <= c < nd.len() && a != c implies #[trigger] nd[a].0 != #[trigger] nd[c].0 by {
                        if a < done.len() && c < done.len() {
                            assert(nd[a] == done[a] && nd[c] == done[c]);
                        } else if a < done.len() {
                            assert(nd[a] == done[a]);
                        } else {
                            assert(nd[c] == done[c]);
                        }
                    }
                }
                assert(seq_to_map(nd) == seq_to_map(done).insert(e.0, e.1)) by {
                    assert(nd.drop_last() =~= done);
                }
                assert(prepend(done, parse_entries(bytes@, pos as int, rest_k)) == prepend(nd, tail)) by {
                    if tail is Some {
                        assert(done + (seq![e] + tail->0) =~= nd + tail->0);
                    }
                }
                done = nd;
            }
            pos = next;
            i = i + 1;
        }
        assert(parse_entries(bytes@, pos as int, 0) == Some(Seq::<(Seq<char>, WeightView)>::empty()));
        assert(done + Seq::<(Seq<char>, WeightView)>::empty() =~= done);
        Ok(weights)
    }

    /// The weight file content for this collection, tensors in increasing name order.
    pub fn to_bytes(&self) -> (r: Result<Vec<u8>>)
        requires
            self.wf(),
        ensures
            r is Ok <==> encodable(self.sorted_entries()),
            r matches Ok(b) ==> b@ == file_bytes(self.sorted_entries()),
            r matches Err(e) ==> e matches TinyError::ModelFormat(m) && m@ == encode_error_text(
                self.sorted_entries(),
            ),
    {
        proof {
            self.lemma_sorted_entries_def();
        }
        let ghost es = self.entry_seq();
        if self.entries.len() > 4294967295 {
            return Err(TinyError::ModelFormat("too many tensors".to_string()));
        }
        let mut k: usize = 0;
        while k < self.entries.len()
            invariant
                0 <= k <= self.entries@.len(),
                es == self.entry_seq(),
                es == self.sorted_entries(),
                es.len() == self.entries@.len(),
                es.len() <= u32::MAX,
                forall|i: int| 0 <= i < k ==> #[trigger] entry_encodable(es[i]),
            decreases self.entries.len() - k,
        {
            assert(es[k as int].0 == self.entries@[k as int].0@);
            let name_len = self.entries[k].0.as_str().as_bytes().len();
            assert(encode_utf8(es[k as int].0).len() == name_len);
            if name_len > 4294967295 {
                assert(!entry_encodable(es[k as int]));
                proof {
                    lemma_first_unencodable(es, k as int);
                }
                let mut m = "weight name too long: ".to_string();
                push_str(&mut m, self.entries[k].0.as_str());
                return Err(TinyError::ModelFormat(m));
            }
            if self.entries[k].1.shape.len() > 4294967295 {
                assert(es[k as int].1.shape.len() == self.entries@[k as int].1.shape@.len());
                assert(!entry_encodable(es[k as int]));
                proof {
                    lemma_first_unencodable(es, k as int);
                }
                let mut m = "weight rank too large: ".to_string();
                push_str(&mut m, self.entries[k].0.as_str());
                return Err(TinyError::ModelFormat(m));
            }
            assert(es[k as int].1.shape.len() == self.entries@[k as int].1.shape@.len());
            assert(entry_encodable(es[k as int]));
            k = k + 1;
        }
        let mut out: Vec<u8> = Vec::new();
        out.push(84u8);
        out.push(77u8);
        out.push(76u8);
        out.push(76u8);
        out.push(87u8);
        out.push(71u8);
        out.push(72u8);
        out.push(84u8);
        assert(out@ =~= magic());
        u32w(&mut out, VERSION);
        u32w(&mut out, self.entries.len() as u32);
        let ghost header = out@;
        let mut i: usize = 0;
        assert(entries_bytes(es.take(0)) =~= Seq::<u8>::empty());
        while i < self.entries.len()
            invariant
                0 <= i <= self.entries@.len(),
                es == self.entry_seq(),
                encodable(es),
                out@ == header + entries_bytes(es.take(i as int)),
            decreases self.entries.len() - i,
        {
            proof {
                lemma_entries_bytes_push(es, i as int);
            }
            let e = &self.entries[i];
            assert(es[i as int] == (e.0@, e.1@));
            assert(entry_encodable(es[i as int]));
            push_entry(&mut out, &e.0, &e.1);
            i = i + 1;
        }
        assert(es.take(i as int) =~= es);
        Ok(out)
    }
}

} // verus!
