//! Conversion of Hugging Face Llama checkpoints to this runtime's weight names.
use vstd::prelude::*;

use crate::error::{dims_text, push_dims, Result, TinyError};
use crate::model::config::ModelConfig;
use crate::text::{decimal, push_decimal, push_str};
use crate::model::weights::{insert_error_text, shape_numel, valid_weight, ModelWeights, WeightMap, WeightTensor, WeightValues, WeightView};

verus! {

/// The fields of a Hugging Face Llama `config.json` that the importer reads.
/// `rms_norm_eps` and `rope_theta` are IEEE-754 single-precision bit patterns.
#[derive(Debug, Clone, Copy, PartialEq, Eq)]
pub struct LlamaConfigFile {
    pub vocab_size: usize,
    pub hidden_size: usize,
    pub intermediate_size: usize,
    pub num_hidden_layers: usize,
    pub num_attention_heads: usize,
    pub num_key_value_heads: Option<usize>,
    pub attention_bias: Option<bool>,
    pub mlp_bias: Option<bool>,
    pub max_position_embeddings: usize,
    pub rms_norm_eps: u32,
    pub rope_theta: u32,
}

/// The runtime configuration a Llama configuration describes.
pub open spec fn llama_model_config(f: LlamaConfigFile) -> ModelConfig {
    ModelConfig {
        vocab_size: f.vocab_size,
        hidden_size: f.hidden_size,
        intermediate_size: f.intermediate_size,
        num_layers: f.num_hidden_layers,
        num_heads: f.num_attention_heads,
        num_kv_heads: f.num_attention_heads,
        max_seq_len: f.max_position_embeddings,
        rms_norm_eps: f.rms_norm_eps,
        rope_theta: f.rope_theta,
    }
}

/// Whether the checkpoint uses grouped-query attention (fewer key/value heads than query heads).
pub open spec fn uses_grouped_query(f: LlamaConfigFile) -> bool {
    match f.num_key_value_heads {
        Some(kv) => kv != f.num_attention_heads,
        None => false,
    }
}

/// Whether the checkpoint has attention or MLP bias tensors.
pub open spec fn uses_bias(f: LlamaConfigFile) -> bool {
    f.attention_bias == Some(true) || f.mlp_bias == Some(true)
}

/// Converts a Llama configuration, rejecting grouped-query attention and bias
/// tensors, and validates the result.
pub fn model_config_from_llama(source: &LlamaConfigFile) -> (r: Result<ModelConfig>)
    ensures
        r is Ok <==> !uses_grouped_query(*source) && !uses_bias(*source) && llama_model_config(
            *source,
        ).valid(),
        r matches Ok(c) ==> c == llama_model_config(*source),
        r matches Err(e) ==> if uses_grouped_query(*source) {
            e matches TinyError::ModelFormat(m) && m@ == "grouped-query attention is not supported: num_key_value_heads="@
                + decimal(source.num_key_value_heads->0 as nat) + ", num_attention_heads="@ + decimal(
                source.num_attention_heads as nat,
            )
        } else if uses_bias(*source) {
            e matches TinyError::ModelFormat(m) && m@ == "Llama bias tensors are not supported"@
        } else {
            e matches TinyError::InvalidShape(m) && m@ == llama_model_config(*source).shape_error_text()
        },
{
    let num_key_value_heads = match source.num_key_value_heads {
        Some(kv) => kv,
        None => source.num_attention_heads,
    };
    if num_key_value_heads != source.num_attention_heads {
        let mut m = "grouped-query attention is not supported: num_key_value_heads=".to_string();
        push_decimal(&mut m, num_key_value_heads);
        push_str(&mut m, ", num_attention_heads=");
        push_decimal(&mut m, source.num_attention_heads);
        return Err(TinyError::ModelFormat(m));
    }
    let attention_bias = match source.attention_bias {
        Some(b) => b,
        None => false,
    };
    let mlp_bias = match source.mlp_bias {
        Some(b) => b,
        None => false,
    };
    if attention_bias || mlp_bias {
        return Err(TinyError::ModelFormat("Llama bias tensors are not supported".to_string()));
    }
    let config = ModelConfig {
        vocab_size: source.vocab_size,
        hidden_size: source.hidden_size,
        intermediate_size: source.intermediate_size,
        num_layers: source.num_hidden_layers,
        num_heads: source.num_attention_heads,
        num_kv_heads: num_key_value_heads,
        max_seq_len: source.max_position_embeddings,
        rms_norm_eps: source.rms_norm_eps,
        rope_theta: source.rope_theta,
    };
    proof {
        if config.num_heads != 0 {
            let n = config.num_heads as int;
            assert(n % n == 0) by (nonlinear_arith)
                requires
                    n > 0,
            ;
        }
    }
    match config.validate() {
        Ok(()) => Ok(config),
        Err(e) => Err(e),
    }
}

/// The row-major `cols x rows` transpose of the row-major `rows x cols` matrix `data`.
pub open spec fn transpose_seq(data: Seq<u32>, rows: int, cols: int) -> Seq<u32> {
    Seq::new((rows * cols) as nat, |k: int| data[(k % rows) * cols + k / rows])
}

/// The transpose of a rank-2 F32 weight.
pub open spec fn transposed(w: WeightView) -> WeightView {
    let rows = w.shape[0];
    let cols = w.shape[1];
    WeightView {
        shape: seq![cols, rows],
        values: WeightValues::F32(transpose_seq(w.values->F32_0, rows as int, cols as int)),
    }
}

/// Transposing twice gives back the row-major data of the original matrix.
pub proof fn lemma_transpose_involution(data: Seq<u32>, rows: int, cols: int)
    requires
        rows > 0,
        cols > 0,
        data.len() == rows * cols,
    ensures
        transpose_seq(transpose_seq(data, rows, cols), cols, rows) == data,
{
    let t = transpose_seq(data, rows, cols);
    let u = transpose_seq(t, cols, rows);
    assert(rows * cols == cols * rows) by (nonlinear_arith);
    assert forall|k: int| 0 <= k < data.len() implies #[trigger] u[k] == data[k] by {
        let q = k / cols;
        let m = k % cols;
        vstd::arithmetic::div_mod::lemma_fundamental_div_mod(k, cols);
        assert(0 <= m < cols);
        assert(0 <= q < rows) by (nonlinear_arith)
            requires
                k == cols * q + m,
                0 <= m < cols,
                0 <= k < rows * cols,
                cols > 0,
        ;
        let j = m * rows + q;
        assert(0 <= j < rows * cols) by (nonlinear_arith)
            requires
                0 <= m < cols,
                0 <= q < rows,
                j == m * rows + q,
        ;
        vstd::arithmetic::div_mod::lemma_fundamental_div_mod_converse(j, rows, m, q);
        assert(t[j] == data[(j % rows) * cols + j / rows]);
        assert((j % rows) * cols + j / rows == k) by (nonlinear_arith)
            requires
                j % rows == q,
                j / rows == m,
                k == cols * q + m,
        ;
    }
    assert(u =~= data);
}

/// Transposing puts entry `(r, c)` of the `rows x cols` matrix at entry
/// `(c, r)` of the `cols x rows` result, and keeps the number of entries.
pub proof fn lemma_transpose_entries(data: Seq<u32>, rows: int, cols: int)
    requires
        rows > 0,
        cols > 0,
        data.len() == rows * cols,
    ensures
        transpose_seq(data, rows, cols).len() == data.len(),
        forall|r: int, c: int|
            0 <= r < rows && 0 <= c < cols ==> #[trigger] transpose_seq(data, rows, cols)[c * rows + r] == data[r
                * cols + c],
{
    assert forall|r: int, c: int| 0 <= r < rows && 0 <= c < cols implies #[trigger] transpose_seq(data, rows, cols)[c
        * rows + r] == data[r * cols + c] by {
        lemma_index_bound(c, r, rows, cols);
        vstd::arithmetic::div_mod::lemma_fundamental_div_mod_converse(c * rows + r, rows, c, r);
    }
}

proof fn lemma_index_unique(c1: int, r1: int, c2: int, r2: int, rows: int)
    requires
        0 <= r1 < rows,
        0 <= r2 < rows,
        0 <= c1,
        0 <= c2,
        c1 * rows + r1 == c2 * rows + r2,
    ensures
        c1 == c2 && r1 == r2,
{
    vstd::arithmetic::div_mod::lemma_fundamental_div_mod_converse(c1 * rows + r1, rows, c1, r1);
    vstd::arithmetic::div_mod::lemma_fundamental_div_mod_converse(c2 * rows + r2, rows, c2, r2);
}

proof fn lemma_index_bound(c: int, r: int, rows: int, cols: int)
    requires
        0 <= r < rows,
        0 <= c < cols,
    ensures
        0 <= c * rows + r < rows * cols,
        0 <= r * cols + c < rows * cols,
{
    assert(c * rows <= (cols - 1) * rows) by (nonlinear_arith)
        requires
            0 <= c < cols,
            0 < rows,
    ;
    assert(r * cols <= (rows - 1) * cols) by (nonlinear_arith)
        requires
            0 <= r < rows,
            0 < cols,
    ;
    assert((cols - 1) * rows + rows == rows * cols) by (nonlinear_arith);
    assert((rows - 1) * cols + cols == rows * cols) by (nonlinear_arith);
    assert(0 <= c * rows) by (nonlinear_arith)
        requires
            0 <= c,
            0 < rows,
    ;
    assert(0 <= r * cols) by (nonlinear_arith)
        requires
            0 <= r,
            0 < cols,
    ;
}

/// Transposes a rank-2 F32 weight into its shape and elements.
pub fn transpose_2d(name: &str, weight: WeightTensor) -> (r: Result<(Vec<usize>, Vec<u32>)>)
    requires
        weight.data is F32,
        valid_weight(name@, weight@),
    ensures
        r is Ok <==> weight.shape@.len() == 2,
        r matches Ok(t) ==> (WeightView { shape: t.0@, values: WeightValues::F32(t.1@) }) == transposed(weight@),
        r matches Err(e) ==> e matches TinyError::ModelFormat(m) && m@ == "cannot transpose "@ + name@
            + ": expected rank 2, got shape "@ + dims_text(weight.shape@),
{
    let ghost view = weight@;
    let (shape, data) = weight.into_parts();
    if shape.len() != 2 {
        let mut message = "cannot transpose ".to_string();
        push_str(&mut message, name);
        push_str(&mut message, ": expected rank 2, got shape ");
        push_dims(&mut message, &shape);
        return Err(TinyError::ModelFormat(message));
    }
    let rows = shape[0];
    let cols = shape[1];
    assert(shape@.drop_last() =~= seq![rows]);
    assert(shape@.drop_last().drop_last() =~= Seq::<usize>::empty());
    assert(shape_numel(shape@.drop_last().drop_last()) == 1);
    assert(shape_numel(shape@.drop_last()) == rows);
    assert(shape_numel(shape@) == rows * cols);
    assert(data@.len() == rows * cols);
    let n = data.len();
    let mut out: Vec<u32> = vec![0u32; n];
    let mut row: usize = 0;
    while row < rows
        invariant
            shape@ == view.shape,
            rows == shape@[0],
            cols == shape@[1],
            rows > 0 && cols > 0,
            n == data@.len(),
            n == rows * cols,
            out@.len() == n,
            0 <= row <= rows,
            forall|r: int, c: int|
                0 <= r < row && 0 <= c < cols ==> #[trigger] out@[c * rows + r] == data@[r * cols + c],
        decreases rows - row,
    {
        let mut col: usize = 0;
        while col < cols
            invariant
                rows == shape@[0],
                cols == shape@[1],
                rows > 0 && cols > 0,
                n == data@.len(),
                n == rows * cols,
                out@.len() == n,
                0 <= row < rows,
                0 <= col <= cols,
                forall|r: int, c: int|
                    0 <= r < row && 0 <= c < cols ==> #[trigger] out@[c * rows + r] == data@[r * cols + c],
                forall|c: int| 0 <= c < col ==> #[trigger] out@[c * rows + row] == data@[row * cols + c],
            decreases cols - col,
        {
            proof {
                lemma_index_bound(col as int, row as int, rows as int, cols as int);
            }
            let dst = col * rows + row;
            let src = row * cols + col;
            let ghost before = out@;
            out.set(dst, data[src]);
            proof {
                assert forall|r: int, c: int|
                    0 <= r < row && 0 <= c < cols implies #[trigger] out@[c * rows + r] == data@[r * cols + c] by {
                    lemma_index_bound(c, r, rows as int, cols as int);
                    if c * rows + r == dst {
                        lemma_index_unique(c, r, col as int, row as int, rows as int);
                    }
                }
                assert forall|c: int| 0 <= c < col + 1 implies #[trigger] out@[c * rows + row] == data@[row * cols + c] by {
                    lemma_index_bound(c, row as int, rows as int, cols as int);
                    if c < col && c * rows + row == dst {
                        lemma_index_unique(c, row as int, col as int, row as int, rows as int);
                    }
                }
            }
            col = col + 1;
        }
        row = row + 1;
    }
    proof {
        let t = transpose_seq(data@, rows as int, cols as int);
        assert forall|k: int| 0 <= k < n implies #[trigger] out@[k] == t[k] by {
            vstd::arithmetic::div_mod::lemma_fundamental_div_mod(k, rows as int);
            vstd::arithmetic::div_mod::lemma_mod_bound(k, rows as int);
            let c = k / rows as int;
            let r = k % rows as int;
            assert(k == c * rows + r) by (nonlinear_arith)
                requires
                    k == rows * (k / rows as int) + (k % rows as int),
                    c == k / rows as int,
                    r == k % rows as int,
            ;
            assert(0 <= c) by (nonlinear_arith)
                requires
                    0 <= k,
                    rows > 0,
                    c == k / rows as int,
            ;
            assert(c < cols) by (nonlinear_arith)
                requires
                    k == c * rows + r,
                    0 <= r,
                    k < rows * cols,
                    rows > 0,
            ;
        }
        assert(out@ =~= t);
    }
    let new_shape = vec![cols, rows];
    Ok((new_shape, out))
}

/// Why converting a checkpoint failed, with the name or message reported.
pub enum MapFailure {
    /// A needed tensor is missing: its name.
    Missing(Seq<char>),
    /// A tensor has the wrong rank, or cannot be stored under its new name.
    Format(Seq<char>),
    /// A tensor that is read does not hold F32 elements: its name. The
    /// conversion is not run on such a checkpoint.
    NotF32(Seq<char>),
}

/// Whether `st` stopped on a tensor that does not hold F32 elements.
pub open spec fn stopped_on_non_f32(st: MapState) -> bool {
    match st {
        Err(MapFailure::NotF32(_)) => true,
        _ => false,
    }
}

/// Whether converting `src` with `n` layers reads only F32 tensors: it stops
/// on a missing or misshapen tensor before it reaches any other.
pub open spec fn reads_only_f32(src: WeightMap, n: nat) -> bool {
    match llama_mapping(src, n) {
        Err(MapFailure::NotF32(_)) => false,
        _ => true,
    }
}

/// Whether `e` reports the failure `f`, with its name or message.
pub open spec fn reports_map(e: TinyError, f: MapFailure) -> bool {
    match f {
        MapFailure::Missing(n) => e matches TinyError::MissingWeight(m) && m@ == n,
        MapFailure::Format(t) => e matches TinyError::ModelFormat(m) && m@ == t,
        MapFailure::NotF32(_) => false,
    }
}

/// The source and target collections during a conversion, or why it failed.
pub type MapState = core::result::Result<(WeightMap, WeightMap), MapFailure>;

/// Storing `w` under `to` in `tgt`, as an F32 insertion does.
pub open spec fn store(src: WeightMap, tgt: WeightMap, to: Seq<char>, w: WeightView) -> MapState {
    if valid_weight(to, w) && !tgt.dom().contains(to) {
        Ok((src, tgt.insert(to, w)))
    } else {
        Err(MapFailure::Format(insert_error_text(to, w)))
    }
}

/// The message refusing to transpose weight `name` of shape `shape`.
pub open spec fn transpose_error_text(name: Seq<char>, shape: Seq<usize>) -> Seq<char> {
    "cannot transpose "@ + name + ": expected rank 2, got shape "@ + dims_text(shape)
}

/// Moving the weight `from` of `src` unchanged to `to` in `tgt`.
pub open spec fn move_plain(st: MapState, from: Seq<char>, to: Seq<char>) -> MapState {
    match st {
        Err(f) => Err(f),
        Ok((src, tgt)) => if !src.dom().contains(from) {
            Err(MapFailure::Missing(from))
        } else if !(src[from].values is F32) {
            Err(MapFailure::NotF32(from))
        } else {
            store(src.remove(from), tgt, to, src[from])
        },
    }
}

/// Moving the rank-2 weight `from` of `src`, transposed, to `to` in `tgt`.
pub open spec fn move_linear(st: MapState, from: Seq<char>, to: Seq<char>) -> MapState {
    match st {
        Err(f) => Err(f),
        Ok((src, tgt)) => if !src.dom().contains(from) {
            Err(MapFailure::Missing(from))
        } else if !(src[from].values is F32) {
            Err(MapFailure::NotF32(from))
        } else if src[from].shape.len() != 2 {
            Err(MapFailure::Format(transpose_error_text(from, src[from].shape)))
        } else {
            store(src.remove(from), tgt, to, transposed(src[from]))
        },
    }
}

/// `prefix`, the decimal index `l`, then `suffix`.
pub open spec fn layer_name(prefix: Seq<char>, l: nat, suffix: Seq<char>) -> Seq<char> {
    prefix + decimal(l) + suffix
}

/// The nine moves that convert layer `l`.
pub open spec fn llama_layer(st: MapState, l: nat) -> MapState {
    let hf = "model.layers."@;
    let ours = "layers."@;
    let s1 = move_plain(st, layer_name(hf, l, ".input_layernorm.weight"@), layer_name(ours, l, ".attention_norm.weight"@));
    let s2 = move_linear(s1, layer_name(hf, l, ".self_attn.q_proj.weight"@), layer_name(ours, l, ".attention.q_proj.weight"@));
    let s3 = move_linear(s2, layer_name(hf, l, ".self_attn.k_proj.weight"@), layer_name(ours, l, ".attention.k_proj.weight"@));
    let s4 = move_linear(s3, layer_name(hf, l, ".self_attn.v_proj.weight"@), layer_name(ours, l, ".attention.v_proj.weight"@));
    let s5 = move_linear(s4, layer_name(hf, l, ".self_attn.o_proj.weight"@), layer_name(ours, l, ".attention.out_proj.weight"@));
    let s6 = move_plain(s5, layer_name(hf, l, ".post_attention_layernorm.weight"@), layer_name(ours, l, ".mlp_norm.weight"@));
    let s7 = move_linear(s6, layer_name(hf, l, ".mlp.gate_proj.weight"@), layer_name(ours, l, ".mlp.gate_proj.weight"@));
    let s8 = move_linear(s7, layer_name(hf, l, ".mlp.up_proj.weight"@), layer_name(ours, l, ".mlp.up_proj.weight"@));
    move_linear(s8, layer_name(hf, l, ".mlp.down_proj.weight"@), layer_name(ours, l, ".mlp.down_proj.weight"@))
}

/// Layers `0..n` converted in order.
pub open spec fn llama_layers(st: MapState, n: nat) -> MapState
    decreases n,
{
    if n == 0 {
        st
    } else {
        llama_layer(llama_layers(st, (n - 1) as nat), (n - 1) as nat)
    }
}

/// The name of the token embedding in a Hugging Face checkpoint: tied
/// checkpoints may store it only as `lm_head.weight`.
pub open spec fn embedding_source(src: WeightMap) -> Seq<char> {
    if src.dom().contains("model.embed_tokens.weight"@) {
        "model.embed_tokens.weight"@
    } else {
        "lm_head.weight"@
    }
}

/// The state before the layers: the source, and the embedding under its new name.
pub open spec fn llama_start(src: WeightMap) -> MapState {
    Ok((src, Map::<Seq<char>, WeightView>::empty().insert("token_embedding.weight"@, src[embedding_source(src)])))
}

/// The converted weights of a Llama checkpoint with `n` layers, or why the
/// conversion fails: the embedding, each layer's nine tensors and the final
/// norm are moved in order, then the LM head, which a tied checkpoint takes
/// from the embedding.
pub open spec fn llama_mapping(src: WeightMap, n: nat) -> core::result::Result<WeightMap, MapFailure> {
    let emb = embedding_source(src);
    if !src.dom().contains(emb) {
        Err(MapFailure::Missing(emb))
    } else if !(src[emb].values is F32) {
        Err(MapFailure::NotF32(emb))
    } else {
        let layers = llama_layers(llama_start(src), n);
        match move_plain(layers, "model.norm.weight"@, "final_norm.weight"@) {
            Err(f) => Err(f),
            Ok((s, t)) => if s.dom().contains("lm_head.weight"@) {
                match move_linear(Ok((s, t)), "lm_head.weight"@, "lm_head.weight"@) {
                    Err(f) => Err(f),
                    Ok((_, t2)) => Ok(t2),
                }
            } else if src[emb].shape.len() != 2 {
                Err(MapFailure::Format(transpose_error_text(emb, src[emb].shape)))
            } else {
                match store(s, t, "lm_head.weight"@, transposed(src[emb])) {
                    Err(f) => Err(f),
                    Ok((_, t2)) => Ok(t2),
                }
            },
        }
    }
}

/// The state of both collections, by their views.
pub open spec fn pair_view(src: &ModelWeights, tgt: &ModelWeights) -> MapState {
    Ok((src@, tgt@))
}

/// Whether both collections are well formed.
pub open spec fn pair_ok(src: &ModelWeights, tgt: &ModelWeights) -> bool {
    src.wf() && tgt.wf()
}

/// Moves the weight `from` of `source` unchanged to `to` in `target`.
fn move_weight(source: &mut ModelWeights, target: &mut ModelWeights, from: &str, to: &str) -> (r: Result<()>)
    requires
        pair_ok(old(source), old(target)),
        !stopped_on_non_f32(move_plain(pair_view(old(source), old(target)), from@, to@)),
    ensures
        pair_ok(final(source), final(target)),
        r is Ok <==> move_plain(pair_view(old(source), old(target)), from@, to@) is Ok,
        r is Ok ==> move_plain(pair_view(old(source), old(target)), from@, to@) == pair_view(final(source), final(target)),
        r matches Err(e) ==> (move_plain(pair_view(old(source), old(target)), from@, to@) matches Err(f) && reports_map(e, f)),
{
    proof {
        source.lemma_valid_entries();
    }
    let weight = source.take(from)?;
    let (shape, data) = weight.into_parts();
    let r = target.insert_f32(to, shape.as_slice(), data);
    r
}

/// Moves the rank-2 weight `from` of `source`, transposed, to `to` in `target`.
fn move_linear_weight(source: &mut ModelWeights, target: &mut ModelWeights, from: &str, to: &str) -> (r: Result<()>)
    requires
        pair_ok(old(source), old(target)),
        !stopped_on_non_f32(move_linear(pair_view(old(source), old(target)), from@, to@)),
    ensures
        pair_ok(final(source), final(target)),
        r is Ok <==> move_linear(pair_view(old(source), old(target)), from@, to@) is Ok,
        r is Ok ==> move_linear(pair_view(old(source), old(target)), from@, to@) == pair_view(final(source), final(target)),
        r matches Err(e) ==> (move_linear(pair_view(old(source), old(target)), from@, to@) matches Err(f) && reports_map(e, f)),
{
    proof {
        source.lemma_valid_entries();
    }
    let weight = source.take(from)?;
    let (shape, data) = transpose_2d(from, weight)?;
    proof {
        lemma_transposed_valid(old(source)@[from@]);
    }
    target.insert_f32(to, shape.as_slice(), data)
}

proof fn lemma_transposed_valid(w: WeightView)
    requires
        w.shape.len() == 2,
        w.values is F32,
        forall|i: int| 0 <= i < w.shape.len() ==> #[trigger] w.shape[i] > 0,
    ensures
        transposed(w).shape.len() == 2,
        transposed(w).shape[0] > 0 && transposed(w).shape[1] > 0,
        transposed(w).values.len() == shape_numel(transposed(w).shape),
{
    let t = transposed(w);
    assert(t.shape.drop_last() =~= seq![w.shape[1]]);
    assert(t.shape.drop_last().drop_last() =~= Seq::<usize>::empty());
    assert(shape_numel(t.shape.drop_last().drop_last()) == 1);
    assert(shape_numel(t.shape.drop_last()) == w.shape[1]);
    assert(w.shape[0] * w.shape[1] == w.shape[1] * w.shape[0]) by (nonlinear_arith);
}

/// `prefix`, the decimal `l`, then `suffix`, as a string.
fn make_layer_name(prefix: &str, l: usize, suffix: &str) -> (s: String)
    ensures
        s@ == layer_name(prefix@, l as nat, suffix@),
{
    let mut s = String::new();
    push_str(&mut s, prefix);
    push_decimal(&mut s, l);
    push_str(&mut s, suffix);
    s
}

proof fn lemma_layers_err(st: MapState, n: nat, m: nat)
    requires
        n <= m,
        llama_layers(st, n) is Err,
    ensures
        llama_layers(st, m) == llama_layers(st, n),
    decreases m,
{
    if m > n {
        lemma_layers_err(st, n, (m - 1) as nat);
    }
}

/// A copy of an F32 weight.
fn copy_f32_tensor(w: &WeightTensor) -> (c: WeightTensor)
    requires
        w.data is F32,
    ensures
        c@ == w@,
        c.data is F32,
{
    let shape = vstd::slice::slice_to_vec(w.shape.as_slice());
    let data = vstd::slice::slice_to_vec(w.data());
    WeightTensor { shape, data: crate::model::weights::WeightData::F32(data) }
}

/// Renames and transposes the weights of a Hugging Face Llama checkpoint with
/// `num_layers` layers into this runtime's layout: linear weights become
/// `[in, out]`, and a tied checkpoint's embedding also becomes the LM head.
pub fn map_llama_weights(checkpoint: ModelWeights, num_layers: usize) -> (r: Result<ModelWeights>)
    requires
        checkpoint.wf(),
        reads_only_f32(checkpoint@, num_layers as nat),
    ensures
        r is Ok <==> llama_mapping(checkpoint@, num_layers as nat) is Ok,
        r matches Ok(t) ==> t.wf() && llama_mapping(checkpoint@, num_layers as nat) == core::result::Result::<
            WeightMap,
            MapFailure,
        >::Ok(t@),
        r matches Err(e) ==> (llama_mapping(checkpoint@, num_layers as nat) matches Err(f) && reports_map(e, f)),
{
    let ghost src = checkpoint@;
    let mut source = checkpoint;
    proof {
        source.lemma_valid_entries();
        reveal_strlit("token_embedding.weight");
        reveal_strlit("lm_head.weight");
    }
    let embedding_name = if source.contains("model.embed_tokens.weight") {
        "model.embed_tokens.weight"
    } else {
        "lm_head.weight"
    };
    assert(embedding_name@ == embedding_source(src));
    let embedding = copy_f32_tensor(source.get(embedding_name)?);
    let mut target = ModelWeights::new();
    let first = copy_f32_tensor(&embedding);
    let (shape, data) = first.into_parts();
    let inserted = target.insert_f32("token_embedding.weight", shape.as_slice(), data);
    assert(inserted is Ok);
    let ghost start = llama_start(src);
    assert(pair_view(&source, &target) == start);
    let mut layer_index: usize = 0;
    while layer_index < num_layers
        invariant
            0 <= layer_index <= num_layers,
            pair_ok(&source, &target),
            reads_only_f32(src, num_layers as nat),
            embedding_name@ == embedding_source(src),
            src.dom().contains(embedding_name@),
            start == llama_start(src),
            src == checkpoint@,
            src[embedding_name@] == embedding@,
            embedding.data is F32,
            llama_layers(start, layer_index as nat) == pair_view(&source, &target),
        decreases num_layers - layer_index,
    {
        let ghost st0 = pair_view(&source, &target);
        proof {
            assert(llama_layers(start, (layer_index + 1) as nat) == llama_layer(st0, layer_index as nat));
            if llama_layer(st0, layer_index as nat) is Err {
                lemma_layers_err(start, (layer_index + 1) as nat, num_layers as nat);
                assert(llama_mapping(src, num_layers as nat) == core::result::Result::<WeightMap, MapFailure>::Err(
                    llama_layer(st0, layer_index as nat)->Err_0,
                ));
            }
        }
        let hf = "model.layers.";
        let ours = "layers.";
        move_weight(&mut source, &mut target, make_layer_name(hf, layer_index, ".input_layernorm.weight").as_str(), make_layer_name(ours, layer_index, ".attention_norm.weight").as_str())?;
        move_linear_weight(&mut source, &mut target, make_layer_name(hf, layer_index, ".self_attn.q_proj.weight").as_str(), make_layer_name(ours, layer_index, ".attention.q_proj.weight").as_str())?;
        move_linear_weight(&mut source, &mut target, make_layer_name(hf, layer_index, ".self_attn.k_proj.weight").as_str(), make_layer_name(ours, layer_index, ".attention.k_proj.weight").as_str())?;
        move_linear_weight(&mut source, &mut target, make_layer_name(hf, layer_index, ".self_attn.v_proj.weight").as_str(), make_layer_name(ours, layer_index, ".attention.v_proj.weight").as_str())?;
        move_linear_weight(&mut source, &mut target, make_layer_name(hf, layer_index, ".self_attn.o_proj.weight").as_str(), make_layer_name(ours, layer_index, ".attention.out_proj.weight").as_str())?;
        move_weight(&mut source, &mut target, make_layer_name(hf, layer_index, ".post_attention_layernorm.weight").as_str(), make_layer_name(ours, layer_index, ".mlp_norm.weight").as_str())?;
        move_linear_weight(&mut source, &mut target, make_layer_name(hf, layer_index, ".mlp.gate_proj.weight").as_str(), make_layer_name(ours, layer_index, ".mlp.gate_proj.weight").as_str())?;
        move_linear_weight(&mut source, &mut target, make_layer_name(hf, layer_index, ".mlp.up_proj.weight").as_str(), make_layer_name(ours, layer_index, ".mlp.up_proj.weight").as_str())?;
        move_linear_weight(&mut source, &mut target, make_layer_name(hf, layer_index, ".mlp.down_proj.weight").as_str(), make_layer_name(ours, layer_index, ".mlp.down_proj.weight").as_str())?;
        assert(llama_layer(st0, layer_index as nat) == pair_view(&source, &target));
        layer_index = layer_index + 1;
    }
    let ghost st1 = pair_view(&source, &target);
    move_weight(&mut source, &mut target, "model.norm.weight", "final_norm.weight")?;
    if source.contains("lm_head.weight") {
        move_linear_weight(&mut source, &mut target, "lm_head.weight", "lm_head.weight")?;
    } else {
        let (lm_shape, lm_data) = transpose_2d(embedding_name, embedding)?;
        proof {
            lemma_transposed_valid(src[embedding_name@]);
        }
        target.insert_f32("lm_head.weight", lm_shape.as_slice(), lm_data)?;
    }
    Ok(target)
}


/// Whether every weight of `small` is in `big`, unchanged.
pub open spec fn keeps(small: WeightMap, big: WeightMap) -> bool {
    forall|k: Seq<char>| #[trigger] small.dom().contains(k) ==> big.dom().contains(k) && big[k] == small[k]
}

/// Whether `b` follows `a` in a conversion: both hold, the source of `b`
/// keeps only weights of the source of `a`, and the target of `b` keeps
/// every weight of the target of `a`.
pub open spec fn grows(a: MapState, b: MapState) -> bool {
    &&& a is Ok
    &&& b is Ok
    &&& keeps(b->Ok_0.0, a->Ok_0.0)
    &&& keeps(a->Ok_0.1, b->Ok_0.1)
}

proof fn lemma_grows_trans(a: MapState, b: MapState, c: MapState)
    requires
        grows(a, b),
        grows(b, c),
    ensures
        grows(a, c),
{
}

/// A move that succeeds takes `from` out of the source and puts `to` into
/// the target, the weight unchanged or transposed.
proof fn lemma_move(st: MapState, from: Seq<char>, to: Seq<char>, linear: bool)
    requires
        (if linear { move_linear(st, from, to) } else { move_plain(st, from, to) }) is Ok,
    ensures
        ({
            let next = if linear { move_linear(st, from, to) } else { move_plain(st, from, to) };
            &&& grows(st, next)
            &&& st->Ok_0.0.dom().contains(from)
            &&& next->Ok_0.1.dom().contains(to)
            &&& next->Ok_0.1[to] == (if linear { transposed(st->Ok_0.0[from]) } else { st->Ok_0.0[from] })
        }),
{
}

/// Whether `t` holds the weight `from` of `src` under `to`: as it is, or
/// transposed where `linear` holds.
pub open spec fn moved(src: WeightMap, t: WeightMap, from: Seq<char>, to: Seq<char>, linear: bool) -> bool {
    &&& src.dom().contains(from)
    &&& t.dom().contains(to)
    &&& t[to] == (if linear { transposed(src[from]) } else { src[from] })
}

/// Whether the target `t` holds layer `l` of the source `src` under this
/// runtime's names: the two norms as they are, and the seven projections
/// transposed from `[out, in]` to `[in, out]`, each under the name of the
/// same projection.
pub open spec fn layer_converted(src: WeightMap, t: WeightMap, l: nat) -> bool {
    let hf = "model.layers."@;
    let ours = "layers."@;
    &&& moved(src, t, layer_name(hf, l, ".input_layernorm.weight"@), layer_name(ours, l, ".attention_norm.weight"@), false)
    &&& moved(src, t, layer_name(hf, l, ".self_attn.q_proj.weight"@), layer_name(ours, l, ".attention.q_proj.weight"@), true)
    &&& moved(src, t, layer_name(hf, l, ".self_attn.k_proj.weight"@), layer_name(ours, l, ".attention.k_proj.weight"@), true)
    &&& moved(src, t, layer_name(hf, l, ".self_attn.v_proj.weight"@), layer_name(ours, l, ".attention.v_proj.weight"@), true)
    &&& moved(src, t, layer_name(hf, l, ".self_attn.o_proj.weight"@), layer_name(ours, l, ".attention.out_proj.weight"@), true)
    &&& moved(src, t, layer_name(hf, l, ".post_attention_layernorm.weight"@), layer_name(ours, l, ".mlp_norm.weight"@), false)
    &&& moved(src, t, layer_name(hf, l, ".mlp.gate_proj.weight"@), layer_name(ours, l, ".mlp.gate_proj.weight"@), true)
    &&& moved(src, t, layer_name(hf, l, ".mlp.up_proj.weight"@), layer_name(ours, l, ".mlp.up_proj.weight"@), true)
    &&& moved(src, t, layer_name(hf, l, ".mlp.down_proj.weight"@), layer_name(ours, l, ".mlp.down_proj.weight"@), true)
}

proof fn lemma_layer_converted_grows(src: WeightMap, t: WeightMap, t2: WeightMap, l: nat)
    requires
        layer_converted(src, t, l),
        keeps(t, t2),
    ensures
        layer_converted(src, t2, l),
{
    let hf = "model.layers."@;
    let ours = "layers."@;
    assert(t.dom().contains(layer_name(ours, l, ".attention_norm.weight"@)));
    assert(t.dom().contains(layer_name(ours, l, ".attention.q_proj.weight"@)));
    assert(t.dom().contains(layer_name(ours, l, ".attention.k_proj.weight"@)));
    assert(t.dom().contains(layer_name(ours, l, ".attention.v_proj.weight"@)));
    assert(t.dom().contains(layer_name(ours, l, ".attention.out_proj.weight"@)));
    assert(t.dom().contains(layer_name(ours, l, ".mlp_norm.weight"@)));
    assert(t.dom().contains(layer_name(ours, l, ".mlp.gate_proj.weight"@)));
    assert(t.dom().contains(layer_name(ours, l, ".mlp.up_proj.weight"@)));
    assert(t.dom().contains(layer_name(ours, l, ".mlp.down_proj.weight"@)));
}

/// Converting one layer from a state whose source keeps only weights of
/// `src` puts that layer of `src` into the target.
proof fn lemma_llama_layer(src: WeightMap, st: MapState, l: nat)
    requires
        llama_layer(st, l) is Ok,
        st is Ok,
        keeps(st->Ok_0.0, src),
    ensures
        grows(st, llama_layer(st, l)),
        layer_converted(src, llama_layer(st, l)->Ok_0.1, l),
{
    let hf = "model.layers."@;
    let ours = "layers."@;
    let s1 = move_plain(st, layer_name(hf, l, ".input_layernorm.weight"@), layer_name(ours, l, ".attention_norm.weight"@));
    let s2 = move_linear(s1, layer_name(hf, l, ".self_attn.q_proj.weight"@), layer_name(ours, l, ".attention.q_proj.weight"@));
    let s3 = move_linear(s2, layer_name(hf, l, ".self_attn.k_proj.weight"@), layer_name(ours, l, ".attention.k_proj.weight"@));
    let s4 = move_linear(s3, layer_name(hf, l, ".self_attn.v_proj.weight"@), layer_name(ours, l, ".attention.v_proj.weight"@));
    let s5 = move_linear(s4, layer_name(hf, l, ".self_attn.o_proj.weight"@), layer_name(ours, l, ".attention.out_proj.weight"@));
    let s6 = move_plain(s5, layer_name(hf, l, ".post_attention_layernorm.weight"@), layer_name(ours, l, ".mlp_norm.weight"@));
    let s7 = move_linear(s6, layer_name(hf, l, ".mlp.gate_proj.weight"@), layer_name(ours, l, ".mlp.gate_proj.weight"@));
    let s8 = move_linear(s7, layer_name(hf, l, ".mlp.up_proj.weight"@), layer_name(ours, l, ".mlp.up_proj.weight"@));
    let s9 = move_linear(s8, layer_name(hf, l, ".mlp.down_proj.weight"@), layer_name(ours, l, ".mlp.down_proj.weight"@));
    assert(s9 == llama_layer(st, l));
    assert(s8 is Ok);
    assert(s7 is Ok);
    assert(s6 is Ok);
    assert(s5 is Ok);
    assert(s4 is Ok);
    assert(s3 is Ok);
    assert(s2 is Ok);
    assert(s1 is Ok);
    lemma_move(st, layer_name(hf, l, ".input_layernorm.weight"@), layer_name(ours, l, ".attention_norm.weight"@), false);
    lemma_move(s1, layer_name(hf, l, ".self_attn.q_proj.weight"@), layer_name(ours, l, ".attention.q_proj.weight"@), true);
    lemma_move(s2, layer_name(hf, l, ".self_attn.k_proj.weight"@), layer_name(ours, l, ".attention.k_proj.weight"@), true);
    lemma_move(s3, layer_name(hf, l, ".self_attn.v_proj.weight"@), layer_name(ours, l, ".attention.v_proj.weight"@), true);
    lemma_move(s4, layer_name(hf, l, ".self_attn.o_proj.weight"@), layer_name(ours, l, ".attention.out_proj.weight"@), true);
    lemma_move(s5, layer_name(hf, l, ".post_attention_layernorm.weight"@), layer_name(ours, l, ".mlp_norm.weight"@), false);
    lemma_move(s6, layer_name(hf, l, ".mlp.gate_proj.weight"@), layer_name(ours, l, ".mlp.gate_proj.weight"@), true);
    lemma_move(s7, layer_name(hf, l, ".mlp.up_proj.weight"@), layer_name(ours, l, ".mlp.up_proj.weight"@), true);
    lemma_move(s8, layer_name(hf, l, ".mlp.down_proj.weight"@), layer_name(ours, l, ".mlp.down_proj.weight"@), true);
    let ss = seq![st, s1, s2, s3, s4, s5, s6, s7, s8, s9];
    assert forall|i: int, j: int| 0 <= i < j < 10 implies grows(#[trigger] ss[i], #[trigger] ss[j]) by {
        lemma_grows_chain(ss, i, j);
    }
    let t = s9->Ok_0.1;
    assert(grows(ss[0], ss[9]));
    assert(grows(ss[1], ss[9]));
    assert(grows(ss[2], ss[9]));
    assert(grows(ss[3], ss[9]));
    assert(grows(ss[4], ss[9]));
    assert(grows(ss[5], ss[9]));
    assert(grows(ss[6], ss[9]));
    assert(grows(ss[7], ss[9]));
    assert(grows(ss[8], ss[9]));
    assert(grows(ss[0], ss[1]));
    assert(grows(ss[0], ss[2]));
    assert(grows(ss[0], ss[3]));
    assert(grows(ss[0], ss[4]));
    assert(grows(ss[0], ss[5]));
    assert(grows(ss[0], ss[6]));
    assert(grows(ss[0], ss[7]));
    assert(grows(ss[0], ss[8]));
    assert(layer_converted(src, t, l));
}

/// Consecutive growth along a sequence of states gives growth between any two.
proof fn lemma_grows_chain(ss: Seq<MapState>, i: int, j: int)
    requires
        0 <= i < j < ss.len(),
        forall|k: int| 0 <= k < ss.len() - 1 ==> grows(#[trigger] ss[k], ss[k + 1]),
    ensures
        grows(ss[i], ss[j]),
    decreases j - i,
{
    if j > i + 1 {
        lemma_grows_chain(ss, i, j - 1);
        lemma_grows_trans(ss[i], ss[j - 1], ss[j]);
    }
}

/// Converting layers `0..n` from the start state of `src` puts each of
/// them into the target.
proof fn lemma_llama_layers(src: WeightMap, n: nat)
    requires
        llama_layers(llama_start(src), n) is Ok,
    ensures
        grows(llama_start(src), llama_layers(llama_start(src), n)),
        forall|l: nat| l < n ==> #[trigger] layer_converted(src, llama_layers(llama_start(src), n)->Ok_0.1, l),
    decreases n,
{
    let start = llama_start(src);
    if n == 0 {
    } else {
        let prev = llama_layers(start, (n - 1) as nat);
        assert(llama_layers(start, n) == llama_layer(prev, (n - 1) as nat));
        if prev is Err {
            assert(llama_layer(prev, (n - 1) as nat) is Err);
        }
        lemma_llama_layers(src, (n - 1) as nat);
        assert(keeps(prev->Ok_0.0, src));
        lemma_llama_layer(src, prev, (n - 1) as nat);
        lemma_grows_trans(start, prev, llama_layers(start, n));
        assert forall|l: nat| l < n implies #[trigger] layer_converted(src, llama_layers(start, n)->Ok_0.1, l) by {
            if l < n - 1 {
                lemma_layer_converted_grows(src, prev->Ok_0.1, llama_layers(start, n)->Ok_0.1, l);
            }
        }
    }
}

/// A successful conversion of a Llama checkpoint with `n` layers holds, for
/// every layer `l < n`, the checkpoint's two norms of that layer unchanged
/// under `layers.l.attention_norm.weight` and `layers.l.mlp_norm.weight`, and
/// each of its seven projections transposed under the runtime's name of the
/// same projection (`q_proj`, `k_proj`, `v_proj`, `o_proj` as `out_proj`,
/// `gate_proj`, `up_proj`, `down_proj`). It also holds the checkpoint's
/// token embedding and final norm unchanged under the runtime's names.
pub proof fn lemma_llama_layers_converted(src: WeightMap, n: nat, l: nat)
    requires
        llama_mapping(src, n) is Ok,
        l < n,
    ensures
        layer_converted(src, llama_mapping(src, n)->Ok_0, l),
        moved(src, llama_mapping(src, n)->Ok_0, embedding_source(src), "token_embedding.weight"@, false),
        moved(src, llama_mapping(src, n)->Ok_0, "model.norm.weight"@, "final_norm.weight"@, false),
{
    let start = llama_start(src);
    let layers = llama_layers(start, n);
    if layers is Err {
        assert(move_plain(layers, "model.norm.weight"@, "final_norm.weight"@) is Err);
    }
    lemma_llama_layers(src, n);
    let fin = move_plain(layers, "model.norm.weight"@, "final_norm.weight"@);
    lemma_move(layers, "model.norm.weight"@, "final_norm.weight"@, false);
    lemma_layer_converted_grows(src, layers->Ok_0.1, fin->Ok_0.1, l);
    assert(start->Ok_0.1.dom().contains("token_embedding.weight"@));
    assert(layers->Ok_0.1.dom().contains("token_embedding.weight"@));
    assert(layers->Ok_0.0.dom().contains("model.norm.weight"@));
    let s = fin->Ok_0.0;
    let t = fin->Ok_0.1;
    assert(t.dom().contains("token_embedding.weight"@));
    assert(t.dom().contains("final_norm.weight"@));
    if s.dom().contains("lm_head.weight"@) {
        let head = move_linear(Ok((s, t)), "lm_head.weight"@, "lm_head.weight"@);
        lemma_move(Ok((s, t)), "lm_head.weight"@, "lm_head.weight"@, true);
        lemma_layer_converted_grows(src, t, head->Ok_0.1, l);
    } else {
        let emb = embedding_source(src);
        let w = transposed(src[emb]);
        assert(keeps(t, t.insert("lm_head.weight"@, w)));
        lemma_layer_converted_grows(src, t, t.insert("lm_head.weight"@, w), l);
    }
}

} // verus!
