//! Reading tensors from a `.safetensors` checkpoint.
use vstd::prelude::*;
use vstd::bytes::*;

use crate::error::{dims_text, push_dims, Result, TinyError};
use crate::model::weights::{lemma_seq_to_map_dom, lemma_seq_to_map_value, names_distinct,
    checked_numel, numel_fits, seq_to_map, shape_numel, valid_weight, ModelWeights,
    WeightData, WeightValues, WeightView,
};
use crate::text::{chars_of, compare_chars, decimal, lemma_seq_lt_order, push_decimal, push_str, seq_lt};

verus! {

/// The element type of a stored tensor.
#[derive(Debug, Clone, PartialEq, Eq)]
pub enum RawDtype {
    F32,
    F16,
    BF16,
    /// Any other element type, by its name.
    Other(String),
}

/// One tensor as a checkpoint stores it: name, element type, shape and raw bytes.
#[derive(Debug, Clone)]
pub struct RawTensor {
    pub name: String,
    pub dtype: RawDtype,
    pub shape: Vec<usize>,
    pub data: Vec<u8>,
}

/// The f32 bit pattern of the bfloat16 value with bits `bits`: the same bits
/// in the upper half, with the quiet bit set for NaN (as `half::bf16::to_f32`).
pub open spec fn bf16_to_f32_bits(bits: u16) -> u32 {
    let b = bits as int;
    let widened = if b % 0x8000 > 0x7f80 && b % 0x80 < 0x40 { b + 0x40 } else { b };
    (widened * 0x10000) as u32
}

/// Widening a bfloat16 keeps its sign and its value: a number (not NaN)
/// becomes the single-precision number whose upper sixteen bits are its
/// bits and whose lower sixteen bits are zero, and a NaN stays a NaN of the
/// same sign with the quiet bit set.
pub proof fn lemma_bf16_widening_exact(bits: u16)
    ensures
        bf16_to_f32_bits(bits) % 0x10000 == 0,
        bf16_to_f32_bits(bits) / 0x8000_0000 == bits / 0x8000,
        bits % 0x8000 <= 0x7f80 ==> bf16_to_f32_bits(bits) == bits * 0x10000,
        bits % 0x8000 > 0x7f80 ==> bf16_to_f32_bits(bits) / 0x10000 % 0x8000 > 0x7f80
            && bf16_to_f32_bits(bits) / 0x10000 % 0x80 >= 0x40,
{
    let b = bits as int;
    let widened = if b % 0x8000 > 0x7f80 && b % 0x80 < 0x40 { b + 0x40 } else { b };
    assert(0 <= widened <= 0xffff);
    assert(0 <= widened * 0x10000 <= 0xffff_0000) by (nonlinear_arith)
        requires
            0 <= widened <= 0xffff,
    ;
    assert(bf16_to_f32_bits(bits) == widened * 0x10000);
    assert((widened * 0x10000) % 0x10000 == 0) by (nonlinear_arith);
    assert((widened * 0x10000) / 0x10000 == widened) by (nonlinear_arith);
    assert((widened * 0x10000) / 0x8000_0000 == widened / 0x8000) by (nonlinear_arith)
        requires
            0 <= widened,
    ;
    assert(widened / 0x8000 == b / 0x8000);
}

fn widen_bf16(bits: u16) -> (r: u32)
    ensures
        r == bf16_to_f32_bits(bits),
{
    let b = bits as u32;
    if bits % 0x8000 > 0x7f80 && bits % 0x80 < 0x40 {
        (b + 0x40) * 0x10000
    } else {
        b * 0x10000
    }
}

/// The little-endian u32 values in `bytes`.
pub open spec fn le_u32s(bytes: Seq<u8>) -> Seq<u32> {
    Seq::new(bytes.len() / 4, |i: int| spec_u32_from_le_bytes(bytes.subrange(4 * i, 4 * i + 4)))
}

/// The little-endian u16 values in `bytes`.
pub open spec fn le_u16s(bytes: Seq<u8>) -> Seq<u16> {
    Seq::new(bytes.len() / 2, |i: int| spec_u16_from_le_bytes(bytes.subrange(2 * i, 2 * i + 2)))
}

/// The elements a tensor's bytes decode to: F32 and BF16 become F32 bit
/// patterns, F16 stays as half-precision bit patterns.
pub open spec fn decoded_values(dtype: RawDtype, bytes: Seq<u8>) -> Option<WeightValues> {
    match dtype {
        RawDtype::F32 => if bytes.len() % 4 == 0 {
            Some(WeightValues::F32(le_u32s(bytes)))
        } else {
            None
        },
        RawDtype::F16 => if bytes.len() % 2 == 0 {
            Some(WeightValues::F16(le_u16s(bytes)))
        } else {
            None
        },
        RawDtype::BF16 => if bytes.len() % 2 == 0 {
            Some(WeightValues::F32(le_u16s(bytes).map_values(|b: u16| bf16_to_f32_bits(b))))
        } else {
            None
        },
        RawDtype::Other(_) => None,
    }
}

/// The name `Debug` gives an element type.
pub open spec fn raw_dtype_name(dtype: RawDtype) -> Seq<char> {
    match dtype {
        RawDtype::F32 => "F32"@,
        RawDtype::F16 => "F16"@,
        RawDtype::BF16 => "BF16"@,
        RawDtype::Other(d) => d@,
    }
}

/// The message refusing the `len` bytes of tensor `name` of element type `dtype`.
pub open spec fn decode_error_text(name: Seq<char>, dtype: RawDtype, len: nat) -> Seq<char> {
    match dtype {
        RawDtype::Other(d) => "safetensors tensor "@ + name + " uses "@ + d@
            + "; importer currently supports only F32, F16 and BF16"@,
        _ => raw_dtype_name(dtype) + " tensor "@ + name + " has invalid byte length "@ + decimal(len),
    }
}

fn length_error(kind: &str, name: &str, len: usize) -> (e: TinyError)
    ensures
        e matches TinyError::ModelFormat(m) && m@ == kind@ + " tensor "@ + name@ + " has invalid byte length "@
            + decimal(len as nat),
{
    let mut m = kind.to_string();
    push_str(&mut m, " tensor ");
    push_str(&mut m, name);
    push_str(&mut m, " has invalid byte length ");
    push_decimal(&mut m, len);
    TinyError::ModelFormat(m)
}

/// Decodes the bytes of tensor `name` of element type `dtype`.
pub fn decode_tensor_data(name: &str, dtype: &RawDtype, bytes: &[u8]) -> (r: Result<WeightData>)
    ensures
        r is Ok <==> decoded_values(*dtype, bytes@) is Some,
        r matches Ok(d) ==> Some(d@) == decoded_values(*dtype, bytes@),
        r matches Err(e) ==> (e is UnsupportedDType <==> dtype is Other) && (e is ModelFormat
            <==> !(dtype is Other)),
        r matches Err(TinyError::UnsupportedDType(m)) ==> m@ == decode_error_text(name@, *dtype, bytes@.len()),
        r matches Err(TinyError::ModelFormat(m)) ==> m@ == decode_error_text(name@, *dtype, bytes@.len()),
{
    match dtype {
        RawDtype::F32 => {
            if bytes.len() % 4 != 0 {
                return Err(length_error("F32", name, bytes.len()));
            }
            let len = bytes.len();
            let n = len / 4;
            let mut out: Vec<u32> = Vec::new();
            let mut i: usize = 0;
            while i < n
                invariant
                    n == bytes@.len() / 4,
                    4 * n == bytes@.len(),
                    len == bytes@.len(),
                    bytes@.len() % 4 == 0,
                    0 <= i <= n,
                    out@ == le_u32s(bytes@).take(i as int),
                decreases n - i,
            {
                out.push(u32_from_le_bytes(vstd::slice::slice_subrange(bytes, 4 * i, 4 * i + 4)));
                i = i + 1;
                assert(out@ =~= le_u32s(bytes@).take(i as int));
            }
            assert(out@ =~= le_u32s(bytes@));
            Ok(WeightData::F32(out))
        },
        RawDtype::F16 | RawDtype::BF16 => {
            if bytes.len() % 2 != 0 {
                let kind = match dtype {
                    RawDtype::F16 => "F16",
                    _ => "BF16",
                };
                return Err(length_error(kind, name, bytes.len()));
            }
            let len = bytes.len();
            let n = len / 2;
            let mut halves: Vec<u16> = Vec::new();
            let mut i: usize = 0;
            while i < n
                invariant
                    n == bytes@.len() / 2,
                    2 * n == bytes@.len(),
                    len == bytes@.len(),
                    bytes@.len() % 2 == 0,
                    0 <= i <= n,
                    halves@ == le_u16s(bytes@).take(i as int),
                decreases n - i,
            {
                halves.push(u16_from_le_bytes(vstd::slice::slice_subrange(bytes, 2 * i, 2 * i + 2)));
                i = i + 1;
                assert(halves@ =~= le_u16s(bytes@).take(i as int));
            }
            assert(halves@ =~= le_u16s(bytes@));
            if let RawDtype::F16 = dtype {
                return Ok(WeightData::F16(halves));
            }
            let mut out: Vec<u32> = Vec::new();
            let mut j: usize = 0;
            while j < n
                invariant
                    n == halves@.len(),
                    0 <= j <= n,
                    out@ == halves@.take(j as int).map_values(|b: u16| bf16_to_f32_bits(b)),
                decreases n - j,
            {
                out.push(widen_bf16(halves[j]));
                j = j + 1;
                assert(out@ =~= halves@.take(j as int).map_values(|b: u16| bf16_to_f32_bits(b)));
            }
            assert(halves@.take(n as int) =~= halves@);
            Ok(WeightData::F32(out))
        },
        RawDtype::Other(d) => {
            let mut m = "safetensors tensor ".to_string();
            push_str(&mut m, name);
            push_str(&mut m, " uses ");
            push_str(&mut m, d.as_str());
            push_str(&mut m, "; importer currently supports only F32, F16 and BF16");
            Err(TinyError::UnsupportedDType(m))
        },
    }
}

} // verus!

verus! {

/// The weight a raw tensor stands for once its bytes decode.
pub open spec fn raw_view(t: RawTensor) -> WeightView {
    WeightView { shape: t.shape@, values: decoded_values(t.dtype, t.data@).unwrap() }
}

/// The named weights that a list of raw tensors stands for.
pub open spec fn raw_entries(ts: Seq<RawTensor>) -> Seq<(Seq<char>, WeightView)> {
    ts.map_values(|t: RawTensor| (t.name@, raw_view(t)))
}

/// Whether the `i`-th tensor is accepted after those before it: its bytes
/// decode, it is a valid weight, and no earlier tensor has its name.
pub open spec fn raw_accepted(ts: Seq<RawTensor>, i: int) -> bool {
    &&& decoded_values(ts[i].dtype, ts[i].data@) is Some
    &&& valid_weight(ts[i].name@, raw_view(ts[i]))
    &&& forall|j: int| 0 <= j < i ==> ts[j].name@ != ts[i].name@
}

/// Whether every dimension of `shape` is positive.
pub open spec fn dims_positive(shape: Seq<usize>) -> bool {
    forall|d: int| 0 <= d < shape.len() ==> #[trigger] shape[d] > 0
}

/// The message refusing tensor `name` of shape `shape`, whose element
/// count overflows `usize`.
pub open spec fn count_overflow_text(name: Seq<char>, shape: Seq<usize>) -> Seq<char> {
    "tensor element count overflow for "@ + name + ": "@ + dims_text(shape)
}

/// Whether `e` refuses tensor `name` of shape `shape` for an element count
/// that overflows.
pub open spec fn reports_count_overflow(e: TinyError, name: Seq<char>, shape: Seq<usize>) -> bool {
    e matches TinyError::ModelFormat(m) && m@ == count_overflow_text(name, shape)
}

fn count_overflow_error(name: &str, shape: &Vec<usize>) -> (e: TinyError)
    ensures
        reports_count_overflow(e, name@, shape@),
{
    let mut m = "tensor element count overflow for ".to_string();
    push_str(&mut m, name);
    push_str(&mut m, ": ");
    push_dims(&mut m, shape);
    TinyError::ModelFormat(m)
}

/// The message refusing the tensor stored under `name`, checked in order:
/// a scalar, a zero dimension, bytes that do not decode, an element count
/// that overflows, a decoded length that does not match the shape, an empty
/// name, and last a name already taken.
pub open spec fn rejection_text(name: Seq<char>, t: StoredTensor) -> Seq<char> {
    if t.shape.len() == 0 {
        "scalar tensor is not supported yet: "@ + name
    } else if !dims_positive(t.shape) {
        "zero-sized tensor is not supported yet: "@ + name + " "@ + dims_text(t.shape)
    } else if decoded_values(t.dtype, t.data) is None {
        decode_error_text(name, t.dtype, t.data.len())
    } else if !numel_fits(t.shape) {
        count_overflow_text(name, t.shape)
    } else if decoded_values(t.dtype, t.data).unwrap().len() != shape_numel(t.shape) {
        "tensor "@ + name + " decoded to "@ + decimal(decoded_values(t.dtype, t.data).unwrap().len())
            + " values, but shape "@ + dims_text(t.shape) + " requires "@ + decimal(shape_numel(t.shape) as nat)
    } else if name.len() == 0 {
        "invalid shape or name for weight "@ + name
    } else {
        "duplicate weight: "@ + name
    }
}

/// Whether `e` reports the refusal of the tensor stored under `name`: an
/// element type that is not supported is `UnsupportedDType`, anything
/// else `ModelFormat`, each with [`rejection_text`].
pub open spec fn reports_rejection(e: TinyError, name: Seq<char>, t: StoredTensor) -> bool {
    if t.shape.len() > 0 && dims_positive(t.shape) && t.dtype is Other {
        e matches TinyError::UnsupportedDType(m) && m@ == rejection_text(name, t)
    } else {
        e matches TinyError::ModelFormat(m) && m@ == rejection_text(name, t)
    }
}

/// A shape whose element count equals a sequence length has an element
/// count that fits `usize`, given positive dimensions.
proof fn lemma_numel_fits_when_valid(shape: Seq<usize>, len: nat)
    requires
        dims_positive(shape),
        len == shape_numel(shape),
        len <= usize::MAX,
    ensures
        numel_fits(shape),
{
    assert forall|k: int| 0 <= k <= shape.len() implies #[trigger] shape_numel(shape.take(k)) <= usize::MAX by {
        crate::model::weights::lemma_numel_prefix(shape, k);
    }
}

/// Whether every dimension of `shape` is positive.
fn all_dims_positive(shape: &[usize]) -> (b: bool)
    ensures
        b <==> forall|d: int| 0 <= d < shape@.len() ==> #[trigger] shape@[d] > 0,
{
    let mut d: usize = 0;
    while d < shape.len()
        invariant
            0 <= d <= shape@.len(),
            forall|e: int| 0 <= e < d ==> #[trigger] shape@[e] > 0,
        decreases shape@.len() - d,
    {
        if shape[d] == 0 {
            return false;
        }
        d = d + 1;
    }
    true
}

/// Builds the weights of a checkpoint from its tensors, in the given order.
/// Each tensor must have a non-empty shape without zero dimensions, bytes
/// that decode for its element type into exactly as many values as the
/// shape has elements, and a new non-empty name; the first tensor that
/// fails stops the import.
pub fn import_tensors(tensors: &[RawTensor]) -> (r: Result<ModelWeights>)
    ensures
        r is Ok <==> forall|i: int| 0 <= i < tensors@.len() ==> #[trigger] raw_accepted(tensors@, i),
        r matches Ok(w) ==> w.wf() && w@ == seq_to_map(raw_entries(tensors@)),
        r matches Err(e) ==> exists|k: int|
            0 <= k < tensors@.len() && !#[trigger] raw_accepted(tensors@, k)
                && (forall|j: int| 0 <= j < k ==> raw_accepted(tensors@, j))
                && reports_rejection(e, tensors@[k].name@, stored_entry(tensors@[k]).1),
{
    let ghost ts = tensors@;
    let mut weights = ModelWeights::new();
    let mut i: usize = 0;
    assert(raw_entries(ts).take(0) =~= Seq::<(Seq<char>, WeightView)>::empty());
    while i < tensors.len()
        invariant
            ts == tensors@,
            0 <= i <= ts.len(),
            weights.wf(),
            weights@ == seq_to_map(raw_entries(ts).take(i as int)),
            forall|j: int| 0 <= j < i ==> #[trigger] raw_accepted(ts, j),
        decreases ts.len() - i,
    {
        let t = &tensors[i];
        let ghost tv = ts[i as int];
        let ghost st = stored_entry(tv).1;
        if t.shape.len() == 0 {
            assert(!raw_accepted(ts, i as int));
            let mut m = "scalar tensor is not supported yet: ".to_string();
            push_str(&mut m, t.name.as_str());
            return Err(TinyError::ModelFormat(m));
        }
        if !all_dims_positive(t.shape.as_slice()) {
            assert(!raw_accepted(ts, i as int));
            let mut m = "zero-sized tensor is not supported yet: ".to_string();
            push_str(&mut m, t.name.as_str());
            push_str(&mut m, " ");
            push_dims(&mut m, &t.shape);
            return Err(TinyError::ModelFormat(m));
        }
        let data = match decode_tensor_data(t.name.as_str(), &t.dtype, t.data.as_slice()) {
            Ok(data) => data,
            Err(e) => {
                assert(!raw_accepted(ts, i as int));
                return Err(e);
            },
        };
        let data_len = data.len();
        let numel = match checked_numel(t.shape.as_slice()) {
            Ok(n) => n,
            Err(_) => {
                assert(!raw_accepted(ts, i as int)) by {
                    if raw_accepted(ts, i as int) {
                        lemma_numel_fits_when_valid(tv.shape@, data_len as nat);
                    }
                }
                return Err(count_overflow_error(t.name.as_str(), &t.shape));
            },
        };
        if data_len != numel {
            assert(!raw_accepted(ts, i as int));
            let mut m = "tensor ".to_string();
            push_str(&mut m, t.name.as_str());
            push_str(&mut m, " decoded to ");
            push_decimal(&mut m, data_len);
            push_str(&mut m, " values, but shape ");
            push_dims(&mut m, &t.shape);
            push_str(&mut m, " requires ");
            push_decimal(&mut m, numel);
            return Err(TinyError::ModelFormat(m));
        }
        let ghost prefix = raw_entries(ts).take(i as int);
        proof {
            lemma_seq_to_map_dom(prefix, tv.name@);
            if weights@.dom().contains(tv.name@) {
                let j = choose|j: int| 0 <= j < prefix.len() && #[trigger] prefix[j].0 == tv.name@;
                assert(ts[j].name@ == tv.name@);
            }
        }
        let res = weights.insert_data(t.name.as_str(), t.shape.as_slice(), data);
        if res.is_err() {
            assert(!raw_accepted(ts, i as int));
            let name_chars = chars_of(t.name.as_str());
            if name_chars.len() == 0 {
                let mut m = "invalid shape or name for weight ".to_string();
                push_str(&mut m, t.name.as_str());
                return Err(TinyError::ModelFormat(m));
            }
            let mut m = "duplicate weight: ".to_string();
            push_str(&mut m, t.name.as_str());
            return Err(TinyError::ModelFormat(m));
        }
        assert forall|j: int| 0 <= j < i implies ts[j].name@ != tv.name@ by {
            assert(prefix[j].0 == ts[j].name@);
        }
        assert(raw_accepted(ts, i as int));
        assert(raw_entries(ts).take(i + 1) =~= prefix.push((tv.name@, raw_view(tv))));
        assert(raw_entries(ts).take(i + 1).drop_last() =~= prefix);
        i = i + 1;
    }
    assert(raw_entries(ts).take(ts.len() as int) =~= raw_entries(ts));
    Ok(weights)
}

} // verus!

verus! {

#[verifier::external_type_specification]
#[verifier::external_body]
pub struct ExSafeTensorError(::safetensors::SafeTensorError);

/// Whether no two raw tensors share a name.
pub open spec fn raw_names_distinct(ts: Seq<RawTensor>) -> bool {
    forall|i: int, j: int| 0 <= i < ts.len() && 0 <= j < ts.len() && i != j ==> #[trigger] ts[i].name@ != #[trigger] ts[j].name@
}

/// What a checkpoint stores for one tensor: element type, shape and bytes.
pub struct StoredTensor {
    pub dtype: RawDtype,
    pub shape: Seq<usize>,
    pub data: Seq<u8>,
}

/// A raw tensor as a name and what is stored under it.
pub open spec fn stored_entry(t: RawTensor) -> (Seq<char>, StoredTensor) {
    (t.name@, StoredTensor { dtype: t.dtype, shape: t.shape@, data: t.data@ })
}

/// The names of raw tensors mapped to what is stored under them.
pub open spec fn stored_contents(ts: Seq<RawTensor>) -> Map<Seq<char>, StoredTensor> {
    seq_to_map(ts.map_values(|t: RawTensor| stored_entry(t)))
}

/// `safetensors::SafeTensors::deserialize` on `bytes`: `None` where it
/// fails, otherwise each tensor's name mapped to what is stored for it.
pub uninterp spec fn safetensors_contents(bytes: Seq<u8>) -> Option<Map<Seq<char>, StoredTensor>>;

/// `safetensors::SafeTensors::deserialize` on `bytes`, then `iter` over the
/// tensors found, each copied out by name, element type (F32, F16 and BF16
/// by variant, any other by its `Debug` name), shape and bytes.
/// The header's format and checks are not restated; the contents are
/// named. The walk follows the crate's hash map of names, so the order of
/// the tensors is not fixed and is left unsaid; the names come from that
/// map's keys and are distinct.
#[verifier::external_body]
fn read_safetensors(bytes: &[u8]) -> (r: core::result::Result<Vec<RawTensor>, ::safetensors::SafeTensorError>)
    ensures
        r is Ok <==> safetensors_contents(bytes@) is Some,
        r matches Ok(ts) ==> raw_names_distinct(ts@) && safetensors_contents(bytes@) == Some(
            stored_contents(ts@),
        ),
{
    let tensors = ::safetensors::SafeTensors::deserialize(bytes)?;
    Ok(tensors.iter().map(|(name, view)| RawTensor {
        name: name.to_string(),
        dtype: match view.dtype() {
            ::safetensors::Dtype::F32 => RawDtype::F32,
            ::safetensors::Dtype::F16 => RawDtype::F16,
            ::safetensors::Dtype::BF16 => RawDtype::BF16,
            other => RawDtype::Other(format!("{other:?}")),
        },
        shape: view.shape().to_vec(),
        data: view.data().to_vec(),
    }).collect())
}

/// The message of a `safetensors::SafeTensorError`, as its `Display` writes it.
#[verifier::external_body]
fn safetensors_error_text(error: &::safetensors::SafeTensorError) -> (s: String) {
    error.to_string()
}

/// The error reported for a checkpoint that does not parse.
fn parse_error(error: &::safetensors::SafeTensorError) -> (e: TinyError)
    ensures
        e matches TinyError::ModelFormat(m) && "failed to parse safetensors: "@.is_prefix_of(m@),
{
    let mut message = "failed to parse safetensors: ".to_string();
    let ghost head = message@;
    let detail = safetensors_error_text(error);
    push_str(&mut message, detail.as_str());
    assert(message@.subrange(0, head.len() as int) =~= head);
    TinyError::ModelFormat(message)
}

/// Whether the tensor stored under `name` imports: its bytes decode and it
/// is a valid weight.
pub open spec fn stored_accepted(name: Seq<char>, t: StoredTensor) -> bool {
    &&& decoded_values(t.dtype, t.data) is Some
    &&& valid_weight(name, WeightView { shape: t.shape, values: decoded_values(t.dtype, t.data).unwrap() })
}

/// The weights stored tensors import to.
pub open spec fn imported_map(c: Map<Seq<char>, StoredTensor>) -> Map<Seq<char>, WeightView> {
    Map::new(
        |k: Seq<char>| c.dom().contains(k),
        |k: Seq<char>| WeightView { shape: c[k].shape, values: decoded_values(c[k].dtype, c[k].data).unwrap() },
    )
}

/// For tensors with distinct names, importing them in order succeeds
/// exactly when every stored tensor imports, and gives the same weights
/// whatever the order.
proof fn lemma_import_by_contents(ts: Seq<RawTensor>)
    requires
        raw_names_distinct(ts),
    ensures
        (forall|i: int| 0 <= i < ts.len() ==> #[trigger] raw_accepted(ts, i)) <==> (forall|k: Seq<char>|
            #[trigger] stored_contents(ts).dom().contains(k) ==> stored_accepted(
                k,
                stored_contents(ts)[k],
            )),
        seq_to_map(raw_entries(ts)) == imported_map(stored_contents(ts)),
{
    let se = ts.map_values(|t: RawTensor| stored_entry(t));
    let re = raw_entries(ts);
    let c = stored_contents(ts);
    assert(c == seq_to_map(se));
    assert(names_distinct(se)) by {
        assert forall|i: int, j: int| 0 <= i < se.len() && 0 <= j < se.len() && i != j implies #[trigger] se[i].0 != #[trigger] se[j].0 by {
            assert(se[i].0 == ts[i].name@ && se[j].0 == ts[j].name@);
        }
    }
    assert(names_distinct(re)) by {
        assert forall|i: int, j: int| 0 <= i < re.len() && 0 <= j < re.len() && i != j implies #[trigger] re[i].0 != #[trigger] re[j].0 by {
            assert(re[i].0 == ts[i].name@ && re[j].0 == ts[j].name@);
        }
    }
    if forall|i: int| 0 <= i < ts.len() ==> #[trigger] raw_accepted(ts, i) {
        assert forall|k: Seq<char>| #[trigger] c.dom().contains(k) implies stored_accepted(k, c[k]) by {
            lemma_seq_to_map_dom(se, k);
            let i = choose|i: int| 0 <= i < se.len() && #[trigger] se[i].0 == k;
            lemma_seq_to_map_value(se, i);
            assert(raw_accepted(ts, i));
        }
    }
    if forall|k: Seq<char>| #[trigger] c.dom().contains(k) ==> stored_accepted(k, c[k]) {
        assert forall|i: int| 0 <= i < ts.len() implies #[trigger] raw_accepted(ts, i) by {
            lemma_seq_to_map_value(se, i);
            assert(se[i].0 == ts[i].name@);
            assert(stored_accepted(ts[i].name@, c[ts[i].name@]));
            assert forall|j: int| 0 <= j < i implies ts[j].name@ != ts[i].name@ by {
            }
        }
    }
    assert forall|k: Seq<char>| #[trigger] seq_to_map(re).dom().contains(k) <==> c.dom().contains(k) by {
        lemma_seq_to_map_dom(se, k);
        lemma_seq_to_map_dom(re, k);
        if seq_to_map(re).dom().contains(k) {
            let i = choose|i: int| 0 <= i < re.len() && #[trigger] re[i].0 == k;
            assert(se[i].0 == k);
        }
        if c.dom().contains(k) {
            let i = choose|i: int| 0 <= i < se.len() && #[trigger] se[i].0 == k;
            assert(re[i].0 == k);
        }
    }
    assert forall|k: Seq<char>| #[trigger] seq_to_map(re).dom().contains(k) implies seq_to_map(re)[k] == imported_map(c)[k] by {
        lemma_seq_to_map_dom(re, k);
        let i = choose|i: int| 0 <= i < re.len() && #[trigger] re[i].0 == k;
        lemma_seq_to_map_value(re, i);
        lemma_seq_to_map_value(se, i);
        assert(se[i].0 == k);
    }
    assert(seq_to_map(re) =~= imported_map(c));
}

/// Parses a `.safetensors` checkpoint and imports its tensors as with
/// [`import_tensors`], in the order the parser yields them. The import
/// succeeds exactly when the checkpoint parses and every tensor in it
/// imports, and then holds the weights the stored tensors decode to.
pub fn import_safetensors(bytes: &[u8]) -> (r: Result<ModelWeights>)
    ensures
        r is Ok <==> (safetensors_contents(bytes@) matches Some(c) && forall|k: Seq<char>|
            #[trigger] c.dom().contains(k) ==> stored_accepted(k, c[k])),
        r matches Ok(w) ==> w.wf() && (safetensors_contents(bytes@) matches Some(c) && w@ == imported_map(c)),
        r matches Err(e) ==> e is ModelFormat || e is UnsupportedDType,
        safetensors_contents(bytes@) is None ==> (r matches Err(e) && e matches TinyError::ModelFormat(m)
            && "failed to parse safetensors: "@.is_prefix_of(m@)),
        r matches Err(e) ==> (safetensors_contents(bytes@) matches Some(c) ==> exists|k: Seq<char>|
            #[trigger] c.dom().contains(k) && !stored_accepted(k, c[k]) && reports_rejection(e, k, c[k])),
{
    match read_safetensors(bytes) {
        Ok(tensors) => {
            let ghost ts = tensors@;
            proof {
                lemma_import_by_contents(ts);
            }
            let r = import_tensors(tensors.as_slice());
            proof {
                let c = safetensors_contents(bytes@)->0;
                assert(c == stored_contents(ts));
                if r is Err {
                    let e = r->Err_0;
                    let k = choose|k: int|
                        0 <= k < ts.len() && !#[trigger] raw_accepted(ts, k)
                            && (forall|j: int| 0 <= j < k ==> raw_accepted(ts, j))
                            && reports_rejection(e, ts[k].name@, stored_entry(ts[k]).1);
                    let se = ts.map_values(|t: RawTensor| stored_entry(t));
                    assert(names_distinct(se)) by {
                        assert forall|a: int, b: int| 0 <= a < se.len() && 0 <= b < se.len() && a != b implies #[trigger] se[a].0 != #[trigger] se[b].0 by {
                            assert(se[a].0 == ts[a].name@ && se[b].0 == ts[b].name@);
                        }
                    }
                    lemma_seq_to_map_value(se, k);
                    assert(se[k] == stored_entry(ts[k]));
                    let name = ts[k].name@;
                    assert(c.dom().contains(name) && c[name] == stored_entry(ts[k]).1);
                    assert forall|j: int| 0 <= j < k implies ts[j].name@ != ts[k].name@ by {}
                    assert(!stored_accepted(name, c[name]));
                }
                if r is Ok {
                    assert forall|k: Seq<char>| #[trigger] c.dom().contains(k) implies stored_accepted(k, c[k]) by {
                        assert(stored_contents(ts).dom().contains(k));
                    }
                }
                if forall|k: Seq<char>| #[trigger] c.dom().contains(k) ==> stored_accepted(k, c[k]) {
                    assert forall|k: Seq<char>| #[trigger] stored_contents(ts).dom().contains(k) implies stored_accepted(k, stored_contents(ts)[k]) by {
                        assert(c.dom().contains(k));
                    }
                }
            }
            r
        },
        Err(error) => Err(parse_error(&error)),
    }
}

} // verus!

verus! {

/// Name, element type, shape and element count of one stored tensor.
#[derive(Debug, Clone)]
pub struct SafeTensorInfo {
    pub name: String,
    pub dtype: RawDtype,
    pub shape: Vec<usize>,
    pub numel: usize,
}

/// The mathematical contents of a [`SafeTensorInfo`].
pub struct InfoView {
    pub name: Seq<char>,
    pub dtype: RawDtype,
    pub shape: Seq<usize>,
    pub numel: int,
}

impl View for SafeTensorInfo {
    type V = InfoView;

    open spec fn view(&self) -> InfoView {
        InfoView { name: self.name@, dtype: self.dtype, shape: self.shape@, numel: self.numel as int }
    }
}

impl SafeTensorInfo {
    /// Number of dimensions.
    pub fn rank(&self) -> (n: usize)
        ensures
            n == self.shape@.len(),
    {
        self.shape.len()
    }
}

/// The description of a raw tensor.
pub open spec fn info_of(t: RawTensor) -> InfoView {
    InfoView { name: t.name@, dtype: t.dtype, shape: t.shape@, numel: shape_numel(t.shape@) }
}

/// Whether the names of `infos` never decrease.
pub open spec fn infos_sorted(infos: Seq<InfoView>) -> bool {
    forall|a: int, b: int| 0 <= a < b < infos.len() ==> !seq_lt(#[trigger] infos[b].name, #[trigger] infos[a].name)
}

fn copy_dtype(dtype: &RawDtype) -> (r: RawDtype)
    ensures
        r == *dtype,
{
    match dtype {
        RawDtype::F32 => RawDtype::F32,
        RawDtype::F16 => RawDtype::F16,
        RawDtype::BF16 => RawDtype::BF16,
        RawDtype::Other(name) => RawDtype::Other(name.clone()),
    }
}

/// Where `key` goes among sorted infos: after every name not above it.
fn insert_position(out: &Vec<SafeTensorInfo>, key: &Vec<char>) -> (p: usize)
    requires
        infos_sorted(out@.map_values(|x: SafeTensorInfo| x@)),
    ensures
        p <= out@.len(),
        forall|a: int| 0 <= a < p ==> !seq_lt(key@, #[trigger] out@[a].name@),
        p < out@.len() ==> seq_lt(key@, out@[p as int].name@),
{
    let mut p: usize = 0;
    while p < out.len()
        invariant
            0 <= p <= out@.len(),
            forall|a: int| 0 <= a < p ==> !seq_lt(key@, #[trigger] out@[a].name@),
        decreases out@.len() - p,
    {
        let other = chars_of(out[p].name.as_str());
        let c = compare_chars(key, &other);
        if c == -1 {
            return p;
        }
        p = p + 1;
    }
    p
}

/// Describes each tensor by name, element type, shape and element count,
/// sorted by name. Fails when an element count overflows `usize`.
pub fn inspect_tensors(tensors: &[RawTensor]) -> (r: Result<Vec<SafeTensorInfo>>)
    ensures
        r is Ok <==> forall|i: int| 0 <= i < tensors@.len() ==> #[trigger] numel_fits(tensors@[i].shape@),
        r matches Ok(infos) ==> infos@.map_values(|x: SafeTensorInfo| x@).to_multiset()
            == tensors@.map_values(|t: RawTensor| info_of(t)).to_multiset(),
        r matches Ok(infos) ==> infos_sorted(infos@.map_values(|x: SafeTensorInfo| x@)),
        r matches Err(e) ==> exists|k: int|
            0 <= k < tensors@.len() && !#[trigger] numel_fits(tensors@[k].shape@)
                && (forall|j: int| 0 <= j < k ==> numel_fits(tensors@[j].shape@))
                && reports_count_overflow(e, tensors@[k].name@, tensors@[k].shape@),
{
    let ghost ts = tensors@;
    let mut out: Vec<SafeTensorInfo> = Vec::new();
    let mut i: usize = 0;
    assert(ts.map_values(|t: RawTensor| info_of(t)).take(0) =~= Seq::<InfoView>::empty());
    assert(out@.map_values(|x: SafeTensorInfo| x@) =~= Seq::<InfoView>::empty());
    while i < tensors.len()
        invariant
            ts == tensors@,
            0 <= i <= ts.len(),
            forall|j: int| 0 <= j < i ==> #[trigger] numel_fits(ts[j].shape@),
            out@.map_values(|x: SafeTensorInfo| x@).to_multiset()
                == ts.map_values(|t: RawTensor| info_of(t)).take(i as int).to_multiset(),
            infos_sorted(out@.map_values(|x: SafeTensorInfo| x@)),
        decreases ts.len() - i,
    {
        let t = &tensors[i];
        let numel = match checked_numel(t.shape.as_slice()) {
            Ok(n) => n,
            Err(_) => {
                return Err(count_overflow_error(t.name.as_str(), &t.shape));
            },
        };
        let info = SafeTensorInfo {
            name: t.name.clone(),
            dtype: copy_dtype(&t.dtype),
            shape: t.shape.clone(),
            numel,
        };
        assert(info@ == info_of(ts[i as int]));
        let key = chars_of(info.name.as_str());
        let ghost before = out@.map_values(|x: SafeTensorInfo| x@);
        let p = insert_position(&out, &key);
        proof {
            vstd::seq_lib::to_multiset_insert(before, p as int, info@);
        }
        out.insert(p, info);
        let ghost after = out@.map_values(|x: SafeTensorInfo| x@);
        assert(after =~= before.insert(p as int, info@));
        assert(ts.map_values(|t: RawTensor| info_of(t)).take(i + 1) =~= ts.map_values(|t: RawTensor| info_of(t)).take(i as int).push(info@));
        proof {
            vstd::seq_lib::to_multiset_build(ts.map_values(|t: RawTensor| info_of(t)).take(i as int), info@);
        }
        assert forall|a: int, b: int| 0 <= a < b < after.len() implies !seq_lt(#[trigger] after[b].name, #[trigger] after[a].name) by {
            if a < p && b < p {
                assert(after[a] == before[a] && after[b] == before[b]);
            } else if a < p && b == p {
                assert(after[a] == before[a]);
            } else if a < p {
                assert(after[a] == before[a] && after[b] == before[b - 1]);
                lemma_seq_lt_order(before[b - 1].name, before[a].name, key@);
                lemma_seq_lt_order(before[b - 1].name, key@, before[p as int].name);
                lemma_seq_lt_order(before[b - 1].name, before[p as int].name, before[b - 1].name);
                lemma_seq_lt_order(key@, before[b - 1].name, before[p as int].name);
                lemma_seq_lt_order(before[a].name, before[b - 1].name, key@);
            } else if a == p {
                assert(after[b] == before[b - 1]);
                lemma_seq_lt_order(before[b - 1].name, key@, before[p as int].name);
                lemma_seq_lt_order(key@, before[b - 1].name, before[p as int].name);
                lemma_seq_lt_order(before[p as int].name, before[b - 1].name, key@);
            } else {
                assert(after[a] == before[a - 1] && after[b] == before[b - 1]);
            }
        }
        i = i + 1;
    }
    assert(ts.map_values(|t: RawTensor| info_of(t)).take(ts.len() as int) =~= ts.map_values(|t: RawTensor| info_of(t)));
    Ok(out)
}

} // verus!

verus! {

/// The description of the tensor stored under `name`.
pub open spec fn stored_info(name: Seq<char>, t: StoredTensor) -> InfoView {
    InfoView { name, dtype: t.dtype, shape: t.shape, numel: shape_numel(t.shape) }
}

/// Descriptions that agree, up to order, with those of tensors of distinct
/// names are exactly the descriptions of the stored tensors, one per name.
proof fn lemma_inspect_by_contents(ts: Seq<RawTensor>, views: Seq<InfoView>)
    requires
        raw_names_distinct(ts),
        views.to_multiset() == ts.map_values(|t: RawTensor| info_of(t)).to_multiset(),
    ensures
        views.len() == ts.len(),
        forall|i: int| 0 <= i < views.len() ==> stored_contents(ts).dom().contains(#[trigger] views[i].name)
            && views[i] == stored_info(views[i].name, stored_contents(ts)[views[i].name]),
        forall|k: Seq<char>| #[trigger] stored_contents(ts).dom().contains(k) ==> exists|i: int|
            0 <= i < views.len() && #[trigger] views[i].name == k,
{
    broadcast use vstd::seq_lib::group_to_multiset_ensures;

    let infos = ts.map_values(|t: RawTensor| info_of(t));
    let se = ts.map_values(|t: RawTensor| stored_entry(t));
    assert(stored_contents(ts) == seq_to_map(se));
    assert(names_distinct(se)) by {
        assert forall|i: int, j: int| 0 <= i < se.len() && 0 <= j < se.len() && i != j implies #[trigger] se[i].0 != #[trigger] se[j].0 by {
            assert(se[i].0 == ts[i].name@ && se[j].0 == ts[j].name@);
        }
    }
    assert(views.len() == views.to_multiset().len());
    assert(infos.len() == infos.to_multiset().len());
    assert forall|i: int| 0 <= i < views.len() implies stored_contents(ts).dom().contains(#[trigger] views[i].name)
        && views[i] == stored_info(views[i].name, stored_contents(ts)[views[i].name]) by {
        assert(views.contains(views[i]));
        assert(views.to_multiset().count(views[i]) > 0);
        assert(infos.contains(views[i]));
        let j = choose|j: int| 0 <= j < infos.len() && infos[j] == views[i];
        lemma_seq_to_map_value(se, j);
        assert(se[j].0 == ts[j].name@);
    }
    assert forall|k: Seq<char>| #[trigger] stored_contents(ts).dom().contains(k) implies exists|i: int|
        0 <= i < views.len() && #[trigger] views[i].name == k by {
        lemma_seq_to_map_dom(se, k);
        let j = choose|j: int| 0 <= j < se.len() && #[trigger] se[j].0 == k;
        assert(infos[j].name == k);
        assert(infos.contains(infos[j]));
        assert(infos.to_multiset().count(infos[j]) > 0);
        assert(views.to_multiset().count(infos[j]) > 0);
        assert(views.contains(infos[j]));
        let i = choose|i: int| 0 <= i < views.len() && views[i] == infos[j];
        assert(views[i].name == k);
    }
}

/// Parses a `.safetensors` checkpoint and describes its tensors as with
/// [`inspect_tensors`]: one description per stored tensor, sorted by name.
pub fn inspect_safetensors(bytes: &[u8]) -> (r: Result<Vec<SafeTensorInfo>>)
    ensures
        r is Ok <==> (safetensors_contents(bytes@) matches Some(c) && forall|k: Seq<char>|
            #[trigger] c.dom().contains(k) ==> numel_fits(c[k].shape)),
        r matches Ok(infos) ==> infos_sorted(infos@.map_values(|x: SafeTensorInfo| x@)),
        r matches Ok(infos) ==> (safetensors_contents(bytes@) matches Some(c) && {
            let views = infos@.map_values(|x: SafeTensorInfo| x@);
            &&& forall|i: int| 0 <= i < views.len() ==> c.dom().contains(#[trigger] views[i].name)
                && views[i] == stored_info(views[i].name, c[views[i].name])
            &&& forall|k: Seq<char>| #[trigger] c.dom().contains(k) ==> exists|i: int|
                0 <= i < views.len() && #[trigger] views[i].name == k
        }),
        r matches Err(e) ==> e is ModelFormat,
        safetensors_contents(bytes@) is None ==> (r matches Err(e) && e matches TinyError::ModelFormat(m)
            && "failed to parse safetensors: "@.is_prefix_of(m@)),
        r matches Err(e) ==> (safetensors_contents(bytes@) matches Some(c) ==> exists|k: Seq<char>|
            #[trigger] c.dom().contains(k) && !numel_fits(c[k].shape) && reports_count_overflow(e, k, c[k].shape)),
{
    match read_safetensors(bytes) {
        Ok(tensors) => {
            let ghost ts = tensors@;
            let r = inspect_tensors(tensors.as_slice());
            proof {
                let c = safetensors_contents(bytes@)->0;
                assert(c == stored_contents(ts));
                let se = ts.map_values(|t: RawTensor| stored_entry(t));
                assert(stored_contents(ts) == seq_to_map(se));
                assert(names_distinct(se)) by {
                    assert forall|i: int, j: int| 0 <= i < se.len() && 0 <= j < se.len() && i != j implies #[trigger] se[i].0 != #[trigger] se[j].0 by {
                        assert(se[i].0 == ts[i].name@ && se[j].0 == ts[j].name@);
                    }
                }
                if r is Err {
                    let e = r->Err_0;
                    let k = choose|k: int|
                        0 <= k < ts.len() && !#[trigger] numel_fits(ts[k].shape@)
                            && (forall|j: int| 0 <= j < k ==> numel_fits(ts[j].shape@))
                            && reports_count_overflow(e, ts[k].name@, ts[k].shape@);
                    lemma_seq_to_map_value(se, k);
                    assert(se[k].0 == ts[k].name@);
                    assert(c.dom().contains(ts[k].name@));
                }
                if r is Ok {
                    lemma_inspect_by_contents(ts, r->Ok_0@.map_values(|x: SafeTensorInfo| x@));
                    assert forall|k: Seq<char>| #[trigger] c.dom().contains(k) implies numel_fits(c[k].shape) by {
                        lemma_seq_to_map_dom(se, k);
                        let j = choose|j: int| 0 <= j < se.len() && #[trigger] se[j].0 == k;
                        lemma_seq_to_map_value(se, j);
                        assert(numel_fits(ts[j].shape@));
                    }
                }
                if forall|k: Seq<char>| #[trigger] c.dom().contains(k) ==> numel_fits(c[k].shape) {
                    assert forall|i: int| 0 <= i < ts.len() implies #[trigger] numel_fits(ts[i].shape@) by {
                        lemma_seq_to_map_value(se, i);
                        assert(se[i].0 == ts[i].name@);
                        assert(c.dom().contains(ts[i].name@));
                    }
                }
            }
            r
        },
        Err(error) => Err(parse_error(&error)),
    }
}

} // verus!
