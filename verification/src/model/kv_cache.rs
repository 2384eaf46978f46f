//! Bookkeeping of the key/value cache: how many positions each layer holds,
//! what a write must look like, and how much storage the cache reserves.
use vstd::prelude::*;

use crate::error::{Result, TinyError};
use crate::tensor::{DType, TensorMeta};
use crate::text::{decimal, push_decimal, push_str};

verus! {

/// One layer's cache of keys and values, of shape
/// `[1, num_kv_heads, max_seq_len, head_dim]`, of which the first `len`
/// positions hold written tokens.
#[derive(Debug, Clone)]
pub struct LayerKvCache {
    len: usize,
    max_seq_len: usize,
    num_kv_heads: usize,
    head_dim: usize,
    dtype: DType,
}

/// The mathematical contents of a [`LayerKvCache`].
pub struct LayerView {
    pub len: nat,
    pub max_seq_len: nat,
    pub num_kv_heads: nat,
    pub head_dim: nat,
    pub dtype: DType,
}

impl View for LayerKvCache {
    type V = LayerView;

    closed spec fn view(&self) -> LayerView {
        LayerView {
            len: self.len as nat,
            max_seq_len: self.max_seq_len as nat,
            num_kv_heads: self.num_kv_heads as nat,
            head_dim: self.head_dim as nat,
            dtype: self.dtype,
        }
    }
}

/// Whether a layer is consistent: positive dimensions, no more positions
/// written than reserved, and a key and value storage whose byte count fits
/// in memory.
pub open spec fn layer_wf(l: LayerView) -> bool {
    &&& l.num_kv_heads > 0
    &&& l.max_seq_len > 0
    &&& l.head_dim > 0
    &&& l.len <= l.max_seq_len
    &&& layer_storage_bytes(l) <= usize::MAX
}

/// Whether a write of `key` and `value` has the cache's element type.
pub open spec fn append_dtype_ok(l: LayerView, key: TensorMeta, value: TensorMeta) -> bool {
    key.dtype == l.dtype && value.dtype == l.dtype
}

/// Whether `key` and `value` share the shape `[1, num_kv_heads, seq, head_dim]`.
pub open spec fn append_shape_ok(l: LayerView, key: TensorMeta, value: TensorMeta) -> bool {
    &&& key.dims@ == value.dims@
    &&& key.dims@.len() == 4
    &&& key.dims@[0] == 1
    &&& key.dims@[1] == l.num_kv_heads
    &&& key.dims@[3] == l.head_dim
}

/// The message refusing a write whose element types differ from the cache's.
pub open spec fn dtype_mismatch_text(l: LayerView, key: TensorMeta, value: TensorMeta) -> Seq<char> {
    "KV cache dtype mismatch: cache="@ + l.dtype.spec_name() + "/"@ + l.dtype.spec_name() + ", input="@
        + key.dtype.spec_name() + "/"@ + value.dtype.spec_name()
}

/// The message refusing a write of the wrong shape. The input's head count
/// is its second dimension; a key of rank below two is named by its rank.
pub open spec fn shape_mismatch_text(l: LayerView, key: TensorMeta) -> Seq<char> {
    "KV cache write shape does not match this layer: cache has "@ + decimal(l.num_kv_heads) + if key.dims@.len()
        >= 2 {
        " KV heads, input has "@ + decimal(key.dims@[1] as nat) + " heads"@
    } else {
        " KV heads, input has rank "@ + decimal(key.dims@.len())
    }
}

/// Bytes reserved by one layer for keys and values together.
pub open spec fn layer_storage_bytes(l: LayerView) -> nat {
    2 * l.num_kv_heads * l.max_seq_len * l.head_dim * l.dtype.spec_size()
}

impl LayerKvCache {
    /// An empty layer cache; every dimension must be positive. Its key and
    /// value storage must fit in memory.
    pub fn new(num_kv_heads: usize, max: usize, dim: usize, dtype: DType) -> (r: Result<Self>)
        requires
            2 * num_kv_heads * max * dim * dtype.spec_size() <= usize::MAX,
        ensures
            r is Ok <==> num_kv_heads > 0 && max > 0 && dim > 0,
            r matches Ok(c) ==> layer_wf(c@),
            r matches Ok(c) ==> c@ == (LayerView {
                len: 0,
                max_seq_len: max as nat,
                num_kv_heads: num_kv_heads as nat,
                head_dim: dim as nat,
                dtype,
            }),
            r matches Err(e) ==> e matches TinyError::InvalidShape(m) && m@
                == "KV cache dimensions must be positive"@,
    {
        if num_kv_heads == 0 || max == 0 || dim == 0 {
            return Err(TinyError::InvalidShape("KV cache dimensions must be positive".to_string()));
        }
        Ok(LayerKvCache { len: 0, max_seq_len: max, num_kv_heads, head_dim: dim, dtype })
    }

    /// Number of positions written.
    pub fn len(&self) -> (n: usize)
        ensures
            n == self@.len,
    {
        self.len
    }

    /// Whether no position is written.
    pub fn is_empty(&self) -> (b: bool)
        ensures
            b == (self@.len == 0),
    {
        self.len == 0
    }

    /// Reserved sequence capacity; appending does not change it.
    pub fn capacity(&self) -> (n: usize)
        ensures
            n == self@.max_seq_len,
    {
        self.max_seq_len
    }

    /// Element type of the stored keys and values.
    pub fn dtype(&self) -> (d: DType)
        ensures
            d == self@.dtype,
    {
        self.dtype
    }

    /// Bytes reserved for keys and values together.
    pub fn storage_bytes(&self) -> (n: usize)
        requires
            layer_wf(self@),
        ensures
            n == layer_storage_bytes(self@),
    {
        proof {
            lemma_storage_steps(self@);
        }
        let a = 2 * self.num_kv_heads;
        let b = a * self.max_seq_len;
        let c = b * self.head_dim;
        c * self.dtype.size_in_bytes()
    }

    /// Starts a new sequence: nothing is written any more. The reserved
    /// storage stays as it is.
    pub fn reset(&mut self)
        ensures
            final(self)@ == (LayerView { len: 0, ..old(self)@ }),
            layer_wf(old(self)@) ==> layer_wf(final(self)@),
            layer_storage_bytes(final(self)@) == layer_storage_bytes(old(self)@),
    {
        self.len = 0;
    }

    /// Checks that `key` and `value` can be appended: same element type as
    /// the cache, the shape `[1, num_kv_heads, seq, head_dim]` for both, and
    /// room for `seq` more positions.
    pub fn validate_append(&self, key: &TensorMeta, value: &TensorMeta) -> (r: Result<()>)
        ensures
            r is Ok <==> append_dtype_ok(self@, *key, *value) && append_shape_ok(self@, *key, *value)
                && self@.len + key.dims@[2] <= self@.max_seq_len,
            r matches Err(e) ==> (e is UnsupportedDType <==> !append_dtype_ok(self@, *key, *value)),
            r matches Err(e) ==> (e is ModelFormat <==> append_dtype_ok(self@, *key, *value)
                && !append_shape_ok(self@, *key, *value)),
            r matches Err(e) ==> (e is PositionOutOfRange <==> append_dtype_ok(self@, *key, *value)
                && append_shape_ok(self@, *key, *value)),
            r matches Err(TinyError::PositionOutOfRange { start_pos, seq_len, max_seq_len }) ==> start_pos
                == self@.len && seq_len == key.dims@[2] && max_seq_len == self@.max_seq_len,
            r matches Err(TinyError::UnsupportedDType(m)) ==> m@ == dtype_mismatch_text(self@, *key, *value),
            r matches Err(TinyError::ModelFormat(m)) ==> m@ == shape_mismatch_text(self@, *key),
    {
        if key.dtype != self.dtype || value.dtype != self.dtype {
            let mut message = "KV cache dtype mismatch: cache=".to_string();
            push_str(&mut message, self.dtype.name());
            push_str(&mut message, "/");
            push_str(&mut message, self.dtype.name());
            push_str(&mut message, ", input=");
            push_str(&mut message, key.dtype.name());
            push_str(&mut message, "/");
            push_str(&mut message, value.dtype.name());
            return Err(TinyError::UnsupportedDType(message));
        }
        if !same_dims(&key.dims, &value.dims) || key.dims.len() != 4 || key.dims[0] != 1
            || key.dims[1] != self.num_kv_heads || key.dims[3] != self.head_dim {
            let mut message = "KV cache write shape does not match this layer: cache has ".to_string();
            push_decimal(&mut message, self.num_kv_heads);
            if key.dims.len() >= 2 {
                push_str(&mut message, " KV heads, input has ");
                push_decimal(&mut message, key.dims[1]);
                push_str(&mut message, " heads");
            } else {
                push_str(&mut message, " KV heads, input has rank ");
                push_decimal(&mut message, key.dims.len());
            }
            return Err(TinyError::ModelFormat(message));
        }
        let seq = key.dims[2];
        match self.len.checked_add(seq) {
            Some(end) => {
                if end > self.max_seq_len {
                    return Err(TinyError::PositionOutOfRange {
                        start_pos: self.len,
                        seq_len: seq,
                        max_seq_len: self.max_seq_len,
                    });
                }
            },
            None => {
                return Err(TinyError::PositionOutOfRange {
                    start_pos: self.len,
                    seq_len: seq,
                    max_seq_len: self.max_seq_len,
                });
            },
        }
        Ok(())
    }

    /// Appends the positions of `key` and `value`, checked as
    /// [`validate_append`](Self::validate_append) does; a refused write
    /// changes nothing.
    pub fn append(&mut self, key: &TensorMeta, value: &TensorMeta) -> (r: Result<()>)
        requires
            layer_wf(old(self)@),
        ensures
            layer_wf(final(self)@),
            layer_storage_bytes(final(self)@) == layer_storage_bytes(old(self)@),
            r is Ok <==> append_dtype_ok(old(self)@, *key, *value) && append_shape_ok(old(self)@, *key, *value)
                && old(self)@.len + key.dims@[2] <= old(self)@.max_seq_len,
            r is Ok ==> final(self)@ == (LayerView { len: (old(self)@.len + key.dims@[2]) as nat, ..old(self)@ }),
            r is Err ==> final(self)@ == old(self)@,
            r matches Err(e) ==> (e is UnsupportedDType <==> !append_dtype_ok(old(self)@, *key, *value)),
            r matches Err(e) ==> (e is ModelFormat <==> append_dtype_ok(old(self)@, *key, *value)
                && !append_shape_ok(old(self)@, *key, *value)),
            r matches Err(e) ==> (e is PositionOutOfRange <==> append_dtype_ok(old(self)@, *key, *value)
                && append_shape_ok(old(self)@, *key, *value)),
            r matches Err(TinyError::PositionOutOfRange { start_pos, seq_len, max_seq_len }) ==> start_pos
                == old(self)@.len && seq_len == key.dims@[2] && max_seq_len == old(self)@.max_seq_len,
            r matches Err(TinyError::UnsupportedDType(m)) ==> m@ == dtype_mismatch_text(old(self)@, *key, *value),
            r matches Err(TinyError::ModelFormat(m)) ==> m@ == shape_mismatch_text(old(self)@, *key),
    {
        match self.validate_append(key, value) {
            Ok(()) => {},
            Err(e) => {
                return Err(e);
            },
        }
        self.len = self.len + key.dims[2];
        Ok(())
    }
}

proof fn lemma_storage_steps(l: LayerView)
    requires
        layer_wf(l),
    ensures
        2 * l.num_kv_heads <= 2 * l.num_kv_heads * l.max_seq_len,
        2 * l.num_kv_heads * l.max_seq_len <= 2 * l.num_kv_heads * l.max_seq_len * l.head_dim,
        2 * l.num_kv_heads * l.max_seq_len * l.head_dim <= layer_storage_bytes(l),
{
    let h = l.num_kv_heads as int;
    let m = l.max_seq_len as int;
    let d = l.head_dim as int;
    let z = l.dtype.spec_size() as int;
    assert(2 * h <= 2 * h * m) by (nonlinear_arith)
        requires
            h >= 1,
            m >= 1,
    ;
    assert(2 * h * m <= 2 * h * m * d) by (nonlinear_arith)
        requires
            h >= 1,
            m >= 1,
            d >= 1,
    ;
    assert(2 * h * m * d <= 2 * h * m * d * z) by (nonlinear_arith)
        requires
            h >= 1,
            m >= 1,
            d >= 1,
            z >= 1,
    ;
}

/// Whether two dimension lists are equal.
fn same_dims(a: &Vec<usize>, b: &Vec<usize>) -> (r: bool)
    ensures
        r == (a@ == b@),
{
    if a.len() != b.len() {
        return false;
    }
    let mut i: usize = 0;
    while i < a.len()
        invariant
            a@.len() == b@.len(),
            0 <= i <= a@.len(),
            forall|j: int| 0 <= j < i ==> a@[j] == b@[j],
        decreases a@.len() - i,
    {
        if a[i] != b[i] {
            return false;
        }
        i = i + 1;
    }
    assert(a@ =~= b@);
    true
}

} // verus!

verus! {

/// The caches of all layers of a model, with a shared context limit.
#[derive(Debug, Clone)]
pub struct KvCache {
    layers: Vec<LayerKvCache>,
    max_seq_len: usize,
}

impl KvCache {
    /// The layers' views, in order.
    pub closed spec fn spec_layers(&self) -> Seq<LayerView> {
        self.layers@.map_values(|l: LayerKvCache| l@)
    }

    /// The context limit.
    pub closed spec fn spec_max_seq_len(&self) -> nat {
        self.max_seq_len as nat
    }

    /// Caches for `layers` layers, each as [`LayerKvCache::new`] makes it.
    pub fn new(layers: usize, max: usize, num_kv_heads: usize, dim: usize, dtype: DType) -> (r: Result<Self>)
        requires
            layers > 0 ==> 2 * num_kv_heads * max * dim * dtype.spec_size() <= usize::MAX,
        ensures
            r is Ok <==> layers == 0 || (num_kv_heads > 0 && max > 0 && dim > 0),
            r matches Ok(c) ==> c.spec_max_seq_len() == max && c.spec_layers().len() == layers
                && forall|i: int| 0 <= i < layers ==> #[trigger] c.spec_layers()[i] == (LayerView {
                    len: 0,
                    max_seq_len: max as nat,
                    num_kv_heads: num_kv_heads as nat,
                    head_dim: dim as nat,
                    dtype,
                }),
            r matches Err(e) ==> e matches TinyError::InvalidShape(m) && m@
                == "KV cache dimensions must be positive"@,
    {
        let mut out: Vec<LayerKvCache> = Vec::new();
        let mut i: usize = 0;
        while i < layers
            invariant
                0 <= i <= layers,
                out@.len() == i,
                layers > 0 ==> 2 * num_kv_heads * max * dim * dtype.spec_size() <= usize::MAX,
                i > 0 ==> num_kv_heads > 0 && max > 0 && dim > 0,
                forall|j: int| 0 <= j < i ==> (#[trigger] out@[j])@ == (LayerView {
                    len: 0,
                    max_seq_len: max as nat,
                    num_kv_heads: num_kv_heads as nat,
                    head_dim: dim as nat,
                    dtype,
                }),
            decreases layers - i,
        {
            match LayerKvCache::new(num_kv_heads, max, dim, dtype) {
                Ok(layer) => out.push(layer),
                Err(e) => {
                    return Err(e);
                },
            }
            i = i + 1;
        }
        let c = KvCache { layers: out, max_seq_len: max };
        assert forall|j: int| 0 <= j < layers implies #[trigger] c.spec_layers()[j] == (LayerView {
            len: 0,
            max_seq_len: max as nat,
            num_kv_heads: num_kv_heads as nat,
            head_dim: dim as nat,
            dtype,
        }) by {
            assert(c.spec_layers()[j] == out@[j]@);
        }
        Ok(c)
    }

    /// The cache of layer `index`, for appending to it.
    pub fn layer_mut(&mut self, index: usize) -> (r: Result<&mut LayerKvCache>)
        ensures
            r is Ok <==> index < old(self).spec_layers().len(),
            r matches Err(e) ==> e matches TinyError::ModelFormat(m) && m@ == "KV cache layer "@ + decimal(
                index as nat,
            ) + " does not exist"@ && final(self).spec_layers() == old(self).spec_layers(),
            final(self).spec_max_seq_len() == old(self).spec_max_seq_len(),
            r matches Ok(l) ==> l@ == old(self).spec_layers()[index as int],
            r matches Ok(l) ==> final(self).spec_layers() == old(self).spec_layers().update(index as int, final(l)@),
    {
        if index >= self.layers.len() {
            let mut message = "KV cache layer ".to_string();
            push_decimal(&mut message, index);
            push_str(&mut message, " does not exist");
            return Err(TinyError::ModelFormat(message));
        }
        Ok(&mut self.layers[index])
    }

    /// Number of layers.
    pub fn num_layers(&self) -> (n: usize)
        ensures
            n == self.spec_layers().len(),
    {
        self.layers.len()
    }

    /// The context limit.
    pub fn max_seq_len(&self) -> (n: usize)
        ensures
            n == self.spec_max_seq_len(),
    {
        self.max_seq_len
    }

    /// Starts a new sequence in every layer.
    pub fn reset(&mut self)
        ensures
            final(self).spec_max_seq_len() == old(self).spec_max_seq_len(),
            final(self).spec_layers().len() == old(self).spec_layers().len(),
            forall|i: int| 0 <= i < old(self).spec_layers().len() ==> #[trigger] final(self).spec_layers()[i]
                == (LayerView { len: 0, ..old(self).spec_layers()[i] }),
    {
        let n = self.layers.len();
        let mut i: usize = 0;
        while i < n
            invariant
                0 <= i <= n,
                n == old(self).layers@.len(),
                self.layers@.len() == n,
                self.max_seq_len == old(self).max_seq_len,
                forall|j: int| 0 <= j < n ==> (#[trigger] self.layers@[j])@ == (if j < i {
                    LayerView { len: 0, ..old(self).layers@[j]@ }
                } else {
                    old(self).layers@[j]@
                }),
            decreases n - i,
        {
            self.layers[i].reset();
            i = i + 1;
        }
        assert forall|j: int| 0 <= j < n implies #[trigger] self.spec_layers()[j] == (LayerView {
            len: 0,
            ..old(self).spec_layers()[j]
        }) by {
            assert(self.spec_layers()[j] == self.layers@[j]@);
            assert(old(self).spec_layers()[j] == old(self).layers@[j]@);
        }
    }
}


/// Bytes reserved by all of `layers`.
pub open spec fn total_storage_bytes(layers: Seq<LayerView>) -> nat
    decreases layers.len(),
{
    if layers.len() == 0 {
        0
    } else {
        total_storage_bytes(layers.drop_last()) + layer_storage_bytes(layers.last())
    }
}

impl KvCache {
    /// Bytes reserved by all layers for keys and values.
    pub fn storage_bytes(&self) -> (n: usize)
        requires
            forall|i: int| 0 <= i < self.spec_layers().len() ==> layer_wf(#[trigger] self.spec_layers()[i]),
            total_storage_bytes(self.spec_layers()) <= usize::MAX,
        ensures
            n == total_storage_bytes(self.spec_layers()),
    {
        let ghost layers = self.spec_layers();
        let mut total: usize = 0;
        let mut i: usize = 0;
        while i < self.layers.len()
            invariant
                layers == self.spec_layers(),
                layers.len() == self.layers@.len(),
                0 <= i <= layers.len(),
                forall|j: int| 0 <= j < layers.len() ==> layer_wf(#[trigger] layers[j]),
                total_storage_bytes(layers) <= usize::MAX,
                total == total_storage_bytes(layers.take(i as int)),
            decreases layers.len() - i,
        {
            assert(layers.take(i + 1).drop_last() =~= layers.take(i as int));
            assert(layers[i as int] == self.layers@[i as int]@);
            proof {
                lemma_total_prefix(layers, i + 1);
            }
            let here = self.layers[i].storage_bytes();
            total = total + here;
            i = i + 1;
        }
        assert(layers.take(layers.len() as int) =~= layers);
        total
    }
}

proof fn lemma_total_prefix(layers: Seq<LayerView>, k: int)
    requires
        0 <= k <= layers.len(),
    ensures
        total_storage_bytes(layers.take(k)) <= total_storage_bytes(layers),
    decreases layers.len(),
{
    if k < layers.len() {
        assert(layers.drop_last().take(k) =~= layers.take(k));
        lemma_total_prefix(layers.drop_last(), k);
    } else {
        assert(layers.take(k) =~= layers);
    }
}

} // verus!
