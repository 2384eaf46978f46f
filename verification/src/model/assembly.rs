//! The consistency checks made when a transformer is assembled from its
//! components: attention projections against the head layout, the parts
//! of a block against each other, and the whole model against its
//! configuration. The components themselves live on the GPU; the checks
//! read only their sizes and element types.
use vstd::prelude::*;

use crate::error::{Result, TinyError};
use crate::model::config::{kv_head_text, ModelConfig};
use crate::model::layout::{block_steps, layout_steps};
use crate::tensor::{DType, TensorMeta};
use crate::text::{decimal, push_decimal, push_str};

verus! {

/// What the checks read of a linear layer.
#[derive(Debug, Clone, Copy, PartialEq, Eq, Structural)]
pub struct LinearShape {
    pub in_features: usize,
    pub out_features: usize,
    pub dtype: DType,
}

/// The message refusing a weight of rank `rank` where `kind` needs a matrix.
pub open spec fn rank_error_text(kind: Seq<char>, rank: nat) -> Seq<char> {
    kind + " weight must have rank 2, got rank "@ + decimal(rank)
}

fn rank_error(kind: &str, rank: usize) -> (e: TinyError)
    ensures
        e matches TinyError::InvalidDimension(m) && m@ == rank_error_text(kind@, rank as nat),
{
    let mut m = kind.to_string();
    push_str(&mut m, " weight must have rank 2, got rank ");
    push_decimal(&mut m, rank);
    TinyError::InvalidDimension(m)
}

/// Checks the weight of a token embedding, `[vocab_size, hidden_size]`, and
/// gives those two sizes.
pub fn check_embedding(weight: &TensorMeta) -> (r: Result<(usize, usize)>)
    ensures
        r is Ok <==> weight.dims@.len() == 2,
        r matches Ok(p) ==> p.0 == weight.dims@[0] && p.1 == weight.dims@[1],
        r matches Err(e) ==> e matches TinyError::InvalidDimension(m) && m@ == rank_error_text(
            "Embedding"@,
            weight.dims@.len(),
        ),
{
    if weight.dims.len() != 2 {
        return Err(rank_error("Embedding", weight.dims.len()));
    }
    Ok((weight.dims[0], weight.dims[1]))
}

/// Checks the weight of a linear layer, `[in_features, out_features]`, and
/// gives its shape.
pub fn check_linear(weight: &TensorMeta) -> (r: Result<LinearShape>)
    ensures
        r is Ok <==> weight.dims@.len() == 2,
        r matches Ok(l) ==> l == (LinearShape {
            in_features: weight.dims@[0],
            out_features: weight.dims@[1],
            dtype: weight.dtype,
        }),
        r matches Err(e) ==> e matches TinyError::InvalidDimension(m) && m@ == rank_error_text(
            "Linear"@,
            weight.dims@.len(),
        ),
{
    if weight.dims.len() != 2 {
        return Err(rank_error("Linear", weight.dims.len()));
    }
    Ok(LinearShape { in_features: weight.dims[0], out_features: weight.dims[1], dtype: weight.dtype })
}

/// The message of the first MLP size check that fails, if any.
pub open spec fn mlp_error_text(gate: LinearShape, up: LinearShape, down: LinearShape) -> Option<Seq<char>> {
    if gate.in_features != up.in_features {
        Some("gate_proj and up_proj must have the same input size"@)
    } else if gate.out_features != up.out_features {
        Some("gate_proj and up_proj must have the same output size"@)
    } else if down.in_features != gate.out_features {
        Some("down_proj input size must match intermediate size"@)
    } else {
        None
    }
}

/// Checks the projections of a SwiGLU MLP: gate and up share their sizes,
/// and down takes the intermediate size.
pub fn check_mlp(gate: &LinearShape, up: &LinearShape, down: &LinearShape) -> (r: Result<()>)
    ensures
        r is Ok <==> mlp_error_text(*gate, *up, *down) is None,
        r matches Err(e) ==> e matches TinyError::InvalidShape(m) && mlp_error_text(*gate, *up, *down) == Some(
            m@,
        ),
{
    if gate.in_features != up.in_features {
        return Err(TinyError::InvalidShape("gate_proj and up_proj must have the same input size".to_string()));
    }
    if gate.out_features != up.out_features {
        return Err(TinyError::InvalidShape("gate_proj and up_proj must have the same output size".to_string()));
    }
    if down.in_features != gate.out_features {
        return Err(TinyError::InvalidShape("down_proj input size must match intermediate size".to_string()));
    }
    Ok(())
}

/// Whether the attention sizes agree: positive head counts, a square query
/// projection split evenly into heads, key/value projections of
/// `num_kv_heads` heads, an output projection back to the hidden size,
/// query heads grouped evenly over key/value heads, and RoPE over one head.
pub open spec fn attention_shapes_ok(
    q: LinearShape,
    k: LinearShape,
    v: LinearShape,
    o: LinearShape,
    rope_head_dim: usize,
    num_heads: usize,
    num_kv_heads: usize,
) -> bool {
    let h = q.in_features;
    let d = h / num_heads;
    &&& num_heads > 0
    &&& num_kv_heads > 0
    &&& q.out_features == h
    &&& h % num_heads == 0
    &&& k.in_features == h && k.out_features == num_kv_heads * d
    &&& v.in_features == h && v.out_features == num_kv_heads * d
    &&& o.in_features == num_heads * d && o.out_features == h
    &&& num_heads % num_kv_heads == 0
    &&& rope_head_dim == d
}

/// Whether the four projections share one element type.
pub open spec fn attention_dtypes_ok(q: LinearShape, k: LinearShape, v: LinearShape, o: LinearShape) -> bool {
    k.dtype == q.dtype && v.dtype == q.dtype && o.dtype == q.dtype
}

/// `[a, b]`.
pub open spec fn pair_text(a: nat, b: nat) -> Seq<char> {
    "["@ + decimal(a) + ", "@ + decimal(b) + "]"@
}

/// The message of the first size check of a self-attention layer that fails.
pub open spec fn attention_shape_error_text(
    q: LinearShape,
    k: LinearShape,
    v: LinearShape,
    o: LinearShape,
    rope_head_dim: usize,
    num_heads: usize,
    num_kv_heads: usize,
) -> Seq<char> {
    let h = q.in_features;
    let d = h / num_heads;
    if num_heads == 0 {
        "attention num_heads cannot be zero"@
    } else if num_kv_heads == 0 {
        "attention num_kv_heads cannot be zero"@
    } else if q.out_features != h {
        "q_proj output size must equal hidden size "@ + decimal(h as nat)
    } else if h % num_heads != 0 {
        "hidden size "@ + decimal(h as nat) + " must be divisible by num_heads "@ + decimal(num_heads as nat)
    } else if !(k.in_features == h && k.out_features == num_kv_heads * d) {
        "k_proj shape must be "@ + pair_text(h as nat, (num_kv_heads * d) as nat)
    } else if !(v.in_features == h && v.out_features == num_kv_heads * d) {
        "v_proj shape must be "@ + pair_text(h as nat, (num_kv_heads * d) as nat)
    } else if !(o.in_features == num_heads * d && o.out_features == h) {
        "out_proj shape must be "@ + pair_text((num_heads * d) as nat, h as nat)
    } else if num_heads % num_kv_heads != 0 {
        "attention num_heads "@ + decimal(num_heads as nat) + " must be divisible by num_kv_heads "@ + decimal(
            num_kv_heads as nat,
        )
    } else {
        "RoPE head dimension "@ + decimal(rope_head_dim as nat) + " does not match attention head dimension "@
            + decimal(d as nat)
    }
}

/// The message refusing projections of different element types.
pub open spec fn attention_dtype_error_text(q: LinearShape, k: LinearShape, v: LinearShape, o: LinearShape) -> Seq<char> {
    "SelfAttention projection dtypes must match, got Q="@ + q.dtype.spec_name() + ", K="@ + k.dtype.spec_name()
        + ", V="@ + v.dtype.spec_name() + ", O="@ + o.dtype.spec_name()
}

fn push_pair(out: &mut String, a: usize, b: usize)
    ensures
        final(out)@ == old(out)@ + pair_text(a as nat, b as nat),
{
    push_str(out, "[");
    push_decimal(out, a);
    push_str(out, ", ");
    push_decimal(out, b);
    push_str(out, "]");
}

/// Checks the projections of a self-attention layer and gives its head
/// dimension. Size mismatches are reported before element type mismatches.
pub fn check_attention(
    q: &LinearShape,
    k: &LinearShape,
    v: &LinearShape,
    o: &LinearShape,
    rope_head_dim: usize,
    num_heads: usize,
    num_kv_heads: usize,
) -> (r: Result<usize>)
    requires
        num_heads > 0 ==> num_kv_heads * (q.in_features / num_heads) <= usize::MAX,
    ensures
        r is Ok <==> attention_shapes_ok(*q, *k, *v, *o, rope_head_dim, num_heads, num_kv_heads)
            && attention_dtypes_ok(*q, *k, *v, *o),
        r matches Ok(d) ==> d == q.in_features / num_heads,
        r matches Err(e) ==> (e is InvalidShape <==> !attention_shapes_ok(*q, *k, *v, *o, rope_head_dim, num_heads, num_kv_heads)),
        r matches Err(e) ==> (e is UnsupportedDType <==> attention_shapes_ok(*q, *k, *v, *o, rope_head_dim, num_heads, num_kv_heads)),
        r matches Err(TinyError::InvalidShape(m)) ==> m@ == attention_shape_error_text(
            *q,
            *k,
            *v,
            *o,
            rope_head_dim,
            num_heads,
            num_kv_heads,
        ),
        r matches Err(TinyError::UnsupportedDType(m)) ==> m@ == attention_dtype_error_text(*q, *k, *v, *o),
{
    if num_heads == 0 {
        return Err(TinyError::InvalidShape("attention num_heads cannot be zero".to_string()));
    }
    if num_kv_heads == 0 {
        return Err(TinyError::InvalidShape("attention num_kv_heads cannot be zero".to_string()));
    }
    let hidden = q.in_features;
    if q.out_features != hidden {
        let mut m = "q_proj output size must equal hidden size ".to_string();
        push_decimal(&mut m, hidden);
        return Err(TinyError::InvalidShape(m));
    }
    if hidden % num_heads != 0 {
        let mut m = "hidden size ".to_string();
        push_decimal(&mut m, hidden);
        push_str(&mut m, " must be divisible by num_heads ");
        push_decimal(&mut m, num_heads);
        return Err(TinyError::InvalidShape(m));
    }
    let head_dim = hidden / num_heads;
    proof {
        vstd::arithmetic::div_mod::lemma_fundamental_div_mod(hidden as int, num_heads as int);
    }
    let q_size = num_heads * head_dim;
    let kv_size = num_kv_heads * head_dim;
    if k.in_features != hidden || k.out_features != kv_size {
        let mut m = "k_proj shape must be ".to_string();
        push_pair(&mut m, hidden, kv_size);
        return Err(TinyError::InvalidShape(m));
    }
    if v.in_features != hidden || v.out_features != kv_size {
        let mut m = "v_proj shape must be ".to_string();
        push_pair(&mut m, hidden, kv_size);
        return Err(TinyError::InvalidShape(m));
    }
    if o.in_features != q_size || o.out_features != hidden {
        let mut m = "out_proj shape must be ".to_string();
        push_pair(&mut m, q_size, hidden);
        return Err(TinyError::InvalidShape(m));
    }
    if num_heads % num_kv_heads != 0 {
        let mut m = "attention num_heads ".to_string();
        push_decimal(&mut m, num_heads);
        push_str(&mut m, " must be divisible by num_kv_heads ");
        push_decimal(&mut m, num_kv_heads);
        return Err(TinyError::InvalidShape(m));
    }
    if rope_head_dim != head_dim {
        let mut m = "RoPE head dimension ".to_string();
        push_decimal(&mut m, rope_head_dim);
        push_str(&mut m, " does not match attention head dimension ");
        push_decimal(&mut m, head_dim);
        return Err(TinyError::InvalidShape(m));
    }
    if k.dtype != q.dtype || v.dtype != q.dtype || o.dtype != q.dtype {
        let mut m = "SelfAttention projection dtypes must match, got Q=".to_string();
        push_str(&mut m, q.dtype.name());
        push_str(&mut m, ", K=");
        push_str(&mut m, k.dtype.name());
        push_str(&mut m, ", V=");
        push_str(&mut m, v.dtype.name());
        push_str(&mut m, ", O=");
        push_str(&mut m, o.dtype.name());
        return Err(TinyError::UnsupportedDType(m));
    }
    Ok(head_dim)
}

/// Whether a block's norms and MLP agree with its attention on the hidden
/// size, and the MLP maps the hidden size to itself.
pub open spec fn block_shapes_ok(hidden: usize, attention_norm: usize, mlp_norm: usize, mlp_in: usize, mlp_out: usize) -> bool {
    attention_norm == hidden && mlp_norm == hidden && mlp_in == hidden && mlp_out == hidden
}

/// The message of the first hidden-size check of a block that fails.
pub open spec fn block_shape_error_text(hidden: usize, attention_norm: usize, mlp_norm: usize, mlp_in: usize, mlp_out: usize) -> Seq<char> {
    let h = decimal(hidden as nat);
    if attention_norm != hidden {
        "attention RMSNorm hidden size "@ + decimal(attention_norm as nat) + " does not match attention hidden size "@ + h
    } else if mlp_norm != hidden {
        "MLP RMSNorm hidden size "@ + decimal(mlp_norm as nat) + " does not match hidden size "@ + h
    } else if mlp_in != hidden {
        "MLP input size "@ + decimal(mlp_in as nat) + " does not match hidden size "@ + h
    } else {
        "MLP output size "@ + decimal(mlp_out as nat) + " does not match hidden size "@ + h
    }
}

/// The message refusing block parts of different element types.
pub open spec fn block_dtype_error_text(attention_norm: DType, attention: DType, mlp_norm: DType, mlp: DType) -> Seq<char> {
    "TransformerBlock component dtypes must match, got attention_norm="@ + attention_norm.spec_name()
        + ", attention="@ + attention.spec_name() + ", mlp_norm="@ + mlp_norm.spec_name() + ", mlp="@
        + mlp.spec_name()
}

/// `prefix`, `a`, `middle`, `b` in decimal.
fn two_numbers(prefix: &str, a: usize, middle: &str, b: usize) -> (m: String)
    ensures
        m@ == prefix@ + decimal(a as nat) + middle@ + decimal(b as nat),
{
    let mut m = String::new();
    push_str(&mut m, prefix);
    push_decimal(&mut m, a);
    push_str(&mut m, middle);
    push_decimal(&mut m, b);
    m
}

/// Checks the parts of a transformer block against its attention layer:
/// hidden sizes first, then element types.
pub fn check_block(
    hidden: usize,
    attention_dtype: DType,
    attention_norm: (usize, DType),
    mlp_norm: (usize, DType),
    mlp: (usize, usize, DType),
) -> (r: Result<()>)
    ensures
        r is Ok <==> block_shapes_ok(hidden, attention_norm.0, mlp_norm.0, mlp.0, mlp.1)
            && attention_norm.1 == attention_dtype && mlp_norm.1 == attention_dtype && mlp.2 == attention_dtype,
        r matches Err(e) ==> (e is InvalidShape <==> !block_shapes_ok(hidden, attention_norm.0, mlp_norm.0, mlp.0, mlp.1)),
        r matches Err(e) ==> (e is UnsupportedDType <==> block_shapes_ok(hidden, attention_norm.0, mlp_norm.0, mlp.0, mlp.1)),
        r matches Err(TinyError::InvalidShape(m)) ==> m@ == block_shape_error_text(
            hidden,
            attention_norm.0,
            mlp_norm.0,
            mlp.0,
            mlp.1,
        ),
        r matches Err(TinyError::UnsupportedDType(m)) ==> m@ == block_dtype_error_text(
            attention_norm.1,
            attention_dtype,
            mlp_norm.1,
            mlp.2,
        ),
{
    if attention_norm.0 != hidden {
        return Err(TinyError::InvalidShape(two_numbers("attention RMSNorm hidden size ", attention_norm.0, " does not match attention hidden size ", hidden)));
    }
    if mlp_norm.0 != hidden {
        return Err(TinyError::InvalidShape(two_numbers("MLP RMSNorm hidden size ", mlp_norm.0, " does not match hidden size ", hidden)));
    }
    if mlp.0 != hidden {
        return Err(TinyError::InvalidShape(two_numbers("MLP input size ", mlp.0, " does not match hidden size ", hidden)));
    }
    if mlp.1 != hidden {
        return Err(TinyError::InvalidShape(two_numbers("MLP output size ", mlp.1, " does not match hidden size ", hidden)));
    }
    if attention_norm.1 != attention_dtype || mlp_norm.1 != attention_dtype || mlp.2 != attention_dtype {
        let mut m = "TransformerBlock component dtypes must match, got attention_norm=".to_string();
        push_str(&mut m, attention_norm.1.name());
        push_str(&mut m, ", attention=");
        push_str(&mut m, attention_dtype.name());
        push_str(&mut m, ", mlp_norm=");
        push_str(&mut m, mlp_norm.1.name());
        push_str(&mut m, ", mlp=");
        push_str(&mut m, mlp.2.name());
        return Err(TinyError::UnsupportedDType(m));
    }
    Ok(())
}

/// Whether the assembled parts match the configuration: the embedding's
/// vocabulary and hidden size, one block per layer of the hidden size, the
/// final norm's hidden size, and an output head from hidden size to vocabulary.
pub open spec fn model_shapes_ok(
    config: ModelConfig,
    embedding: (usize, usize),
    block_hidden: Seq<usize>,
    final_norm: usize,
    lm_head: LinearShape,
) -> bool {
    &&& embedding.0 == config.vocab_size
    &&& embedding.1 == config.hidden_size
    &&& block_hidden.len() == config.num_layers
    &&& forall|i: int| 0 <= i < block_hidden.len() ==> #[trigger] block_hidden[i] == config.hidden_size
    &&& final_norm == config.hidden_size
    &&& lm_head.in_features == config.hidden_size
    &&& lm_head.out_features == config.vocab_size
}

/// Whether `i` is the first position of `hidden` that differs from `h`.
pub open spec fn first_mismatch_at(hidden: Seq<usize>, h: usize, i: int) -> bool {
    &&& 0 <= i < hidden.len()
    &&& hidden[i] != h
    &&& forall|j: int| 0 <= j < i ==> #[trigger] hidden[j] == h
}

/// The first position of `hidden` that differs from `h`.
pub open spec fn first_mismatch(hidden: Seq<usize>, h: usize) -> int {
    choose|i: int| first_mismatch_at(hidden, h, i)
}

/// The message of the first check of the assembled parts against a valid
/// configuration that fails.
pub open spec fn model_shape_error_text(
    config: ModelConfig,
    embedding: (usize, usize),
    block_hidden: Seq<usize>,
    final_norm: usize,
    lm_head: LinearShape,
) -> Seq<char> {
    let h = decimal(config.hidden_size as nat);
    if embedding.0 != config.vocab_size {
        "embedding vocabulary size "@ + decimal(embedding.0 as nat) + " does not match model vocabulary size "@
            + decimal(config.vocab_size as nat)
    } else if embedding.1 != config.hidden_size {
        "embedding hidden size "@ + decimal(embedding.1 as nat) + " does not match model hidden size "@ + h
    } else if block_hidden.len() != config.num_layers {
        "model expects "@ + decimal(config.num_layers as nat) + " transformer layers, got "@ + decimal(
            block_hidden.len(),
        )
    } else if exists|i: int| first_mismatch_at(block_hidden, config.hidden_size, i) {
        let i = first_mismatch(block_hidden, config.hidden_size);
        "transformer block "@ + decimal(i as nat) + " has hidden size "@ + decimal(block_hidden[i] as nat)
            + ", expected "@ + h
    } else if final_norm != config.hidden_size {
        "final RMSNorm hidden size "@ + decimal(final_norm as nat) + " does not match model hidden size "@ + h
    } else if lm_head.in_features != config.hidden_size {
        "LM head input size "@ + decimal(lm_head.in_features as nat) + " does not match model hidden size "@ + h
    } else {
        "LM head output size "@ + decimal(lm_head.out_features as nat) + " does not match vocabulary size "@
            + decimal(config.vocab_size as nat)
    }
}

proof fn lemma_first_mismatch(hidden: Seq<usize>, h: usize, i: int)
    requires
        first_mismatch_at(hidden, h, i),
    ensures
        first_mismatch(hidden, h) == i,
{
    let c = first_mismatch(hidden, h);
    assert(first_mismatch_at(hidden, h, c));
    if c < i {
        assert(hidden[c] == h);
    } else if c > i {
        assert(hidden[i] == h);
    }
}

/// Checks the assembled parts of a model against its configuration, after
/// checking the configuration itself.
pub fn check_model(
    config: &ModelConfig,
    embedding: (usize, usize),
    block_hidden: &[usize],
    final_norm: usize,
    lm_head: &LinearShape,
) -> (r: Result<()>)
    ensures
        r is Ok <==> config.valid() && model_shapes_ok(*config, embedding, block_hidden@, final_norm, *lm_head),
        r matches Err(e) ==> (e is ModelFormat <==> config.shape_ok() && !config.valid()),
        r matches Err(e) ==> (e is InvalidShape <==> !config.shape_ok() || (config.valid()
            && !model_shapes_ok(*config, embedding, block_hidden@, final_norm, *lm_head))),
        r matches Err(TinyError::ModelFormat(m)) ==> m@ == kv_head_text(
            config.num_heads as nat,
            config.num_kv_heads as nat,
        ),
        r matches Err(TinyError::InvalidShape(m)) ==> m@ == if config.shape_ok() {
            model_shape_error_text(*config, embedding, block_hidden@, final_norm, *lm_head)
        } else {
            config.shape_error_text()
        },
{
    match config.validate() {
        Ok(()) => {},
        Err(e) => {
            return Err(e);
        },
    }
    if embedding.0 != config.vocab_size {
        return Err(TinyError::InvalidShape(two_numbers("embedding vocabulary size ", embedding.0, " does not match model vocabulary size ", config.vocab_size)));
    }
    if embedding.1 != config.hidden_size {
        return Err(TinyError::InvalidShape(two_numbers("embedding hidden size ", embedding.1, " does not match model hidden size ", config.hidden_size)));
    }
    if block_hidden.len() != config.num_layers {
        return Err(TinyError::InvalidShape(two_numbers("model expects ", config.num_layers, " transformer layers, got ", block_hidden.len())));
    }
    let mut i: usize = 0;
    while i < block_hidden.len()
        invariant
            config.valid(),
            embedding.0 == config.vocab_size,
            embedding.1 == config.hidden_size,
            block_hidden@.len() == config.num_layers,
            0 <= i <= block_hidden@.len(),
            forall|j: int| 0 <= j < i ==> #[trigger] block_hidden@[j] == config.hidden_size,
        decreases block_hidden@.len() - i,
    {
        if block_hidden[i] != config.hidden_size {
            proof {
                assert(first_mismatch_at(block_hidden@, config.hidden_size, i as int));
                lemma_first_mismatch(block_hidden@, config.hidden_size, i as int);
            }
            let mut m = "transformer block ".to_string();
            push_decimal(&mut m, i);
            push_str(&mut m, " has hidden size ");
            push_decimal(&mut m, block_hidden[i]);
            push_str(&mut m, ", expected ");
            push_decimal(&mut m, config.hidden_size);
            return Err(TinyError::InvalidShape(m));
        }
        i = i + 1;
    }
    assert(!exists|j: int| first_mismatch_at(block_hidden@, config.hidden_size, j));
    if final_norm != config.hidden_size {
        return Err(TinyError::InvalidShape(two_numbers("final RMSNorm hidden size ", final_norm, " does not match model hidden size ", config.hidden_size)));
    }
    if lm_head.in_features != config.hidden_size {
        return Err(TinyError::InvalidShape(two_numbers("LM head input size ", lm_head.in_features, " does not match model hidden size ", config.hidden_size)));
    }
    if lm_head.out_features != config.vocab_size {
        return Err(TinyError::InvalidShape(two_numbers("LM head output size ", lm_head.out_features, " does not match vocabulary size ", config.vocab_size)));
    }
    Ok(())
}


/// The linear shape a weight of shape `shape` gives: `[in, out]`.
pub open spec fn linear_of(shape: Seq<usize>, dtype: DType) -> LinearShape {
    LinearShape { in_features: shape[0], out_features: shape[1], dtype }
}

/// Weights of the shapes the layout asks for assemble: for a valid
/// configuration, every layer's projections pass the attention checks with
/// RoPE over one head, its norms and MLP pass the block checks, and the
/// embedding, blocks, final norm and output head pass the model checks
/// (element types aside).
pub proof fn lemma_layout_assembles(c: ModelConfig, l: nat, dtype: DType)
    requires
        c.valid(),
    ensures
        attention_shapes_ok(
            linear_of(block_steps(c, l)[0].1, dtype),
            linear_of(block_steps(c, l)[1].1, dtype),
            linear_of(block_steps(c, l)[2].1, dtype),
            linear_of(block_steps(c, l)[3].1, dtype),
            (c.hidden_size / c.num_heads) as usize,
            c.num_heads,
            c.num_kv_heads,
        ),
        block_shapes_ok(
            c.hidden_size,
            block_steps(c, l)[4].1[0],
            block_steps(c, l)[5].1[0],
            block_steps(c, l)[6].1[0],
            block_steps(c, l)[8].1[1],
        ),
        model_shapes_ok(
            c,
            (layout_steps(c)[0].1[0], layout_steps(c)[0].1[1]),
            Seq::new(c.num_layers as nat, |i: int| c.hidden_size),
            layout_steps(c)[layout_steps(c).len() - 2].1[0],
            linear_of(layout_steps(c)[layout_steps(c).len() - 1].1, dtype),
        ),
{
    let h = c.hidden_size as int;
    let n = c.num_heads as int;
    let k = c.num_kv_heads as int;
    let d = h / n;
    vstd::arithmetic::div_mod::lemma_fundamental_div_mod(h, n);
    assert(n * d == h);
    assert(k <= n) by {
        vstd::arithmetic::div_mod::lemma_fundamental_div_mod(n, k);
        if n / k >= 1 {
            assert(k * (n / k) >= k) by (nonlinear_arith)
                requires
                    n / k >= 1,
                    k > 0,
            ;
        }
    }
    assert(k * d <= n * d) by (nonlinear_arith)
        requires
            k <= n,
            d >= 0,
    ;
    let b = block_steps(c, l);
    assert(b[0].1 == seq![c.hidden_size, (c.num_heads * (c.hidden_size / c.num_heads)) as usize]);
    let steps = layout_steps(c);
    let mid = crate::model::layout::blocks_steps(c, c.num_layers as nat);
    assert(steps.len() == 1 + mid.len() + 2);
    assert(steps[steps.len() - 2] == ("final_norm.weight"@, seq![c.hidden_size], crate::model::layout::WeightRole::Tensor));
    assert(steps[steps.len() - 1] == ("lm_head.weight"@, seq![c.hidden_size, c.vocab_size], crate::model::layout::WeightRole::Linear));
}

} // verus!
