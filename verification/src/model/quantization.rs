//! Which weights INT8 conversion stores how, and where the scales go.
use vstd::prelude::*;

use crate::error::{dims_text, push_dims, Result, TinyError};
use crate::model::weights::{WeightData, WeightValues};
use crate::text::{chars_of, decimal, lemma_decimal_digits, lemma_decimal_injective, push_decimal, push_str, string_of};

verus! {

/// `name` with a trailing `.weight` replaced by `.scale`, or with `.scale`
/// appended when it has no such ending.
pub open spec fn scale_name(name: Seq<char>) -> Seq<char> {
    let suffix = ".weight"@;
    if name.len() >= suffix.len() && name.skip(name.len() - suffix.len()) == suffix {
        name.take(name.len() - suffix.len()) + ".scale"@
    } else {
        name + ".scale"@
    }
}

/// The name under which the per-channel scales of a quantized linear
/// weight are stored.
pub fn linear_scale_name(weight_name: &str) -> (s: String)
    ensures
        s@ == scale_name(weight_name@),
{
    let chars = chars_of(weight_name);
    let suffix = chars_of(".weight");
    proof {
        reveal_strlit(".weight");
    }
    let n = chars.len();
    let k = suffix.len();
    if n >= k && crate::text::range_eq(&chars, n - k, n, &suffix) {
        assert(chars@.subrange(n - k, n as int) =~= weight_name@.skip(n - k));
        let mut s = string_of(&chars, 0, n - k);
        assert(chars@.subrange(0, n - k) =~= weight_name@.take(n - k));
        push_str(&mut s, ".scale");
        s
    } else {
        proof {
            if n >= k {
                assert(chars@.subrange(n - k, n as int) =~= weight_name@.skip(n - k));
            }
        }
        let mut s = weight_name.to_string();
        push_str(&mut s, ".scale");
        s
    }
}

/// How INT8 conversion stores a weight.
#[derive(Debug, Clone, Copy, PartialEq, Eq, Structural)]
pub enum StorageChange {
    /// Kept as F16.
    ToF16,
    /// Quantized to INT8 per output channel, with F32 scales beside it.
    ToI8,
}

/// One weight of an INT8 conversion and how it is stored.
#[derive(Debug, Clone)]
pub struct ConversionStep {
    pub name: String,
    pub change: StorageChange,
}

/// The steps for layer `l`: its norms kept as F16, its seven projections
/// quantized.
pub open spec fn layer_steps(l: nat) -> Seq<(Seq<char>, StorageChange)> {
    let p = "layers."@ + decimal(l);
    seq![
        (p + ".attention_norm.weight"@, StorageChange::ToF16),
        (p + ".attention.q_proj.weight"@, StorageChange::ToI8),
        (p + ".attention.k_proj.weight"@, StorageChange::ToI8),
        (p + ".attention.v_proj.weight"@, StorageChange::ToI8),
        (p + ".attention.out_proj.weight"@, StorageChange::ToI8),
        (p + ".mlp.gate_proj.weight"@, StorageChange::ToI8),
        (p + ".mlp.up_proj.weight"@, StorageChange::ToI8),
        (p + ".mlp.down_proj.weight"@, StorageChange::ToI8),
        (p + ".mlp_norm.weight"@, StorageChange::ToF16),
    ]
}

/// The steps of layers `0..n` in order.
pub open spec fn layers_steps(n: nat) -> Seq<(Seq<char>, StorageChange)>
    decreases n,
{
    if n == 0 {
        Seq::empty()
    } else {
        layers_steps((n - 1) as nat) + layer_steps((n - 1) as nat)
    }
}

/// The whole conversion: the token embedding as F16, every layer, the final
/// norm as F16 and the output head quantized.
pub open spec fn conversion_steps(num_layers: nat) -> Seq<(Seq<char>, StorageChange)> {
    seq![("token_embedding.weight"@, StorageChange::ToF16)] + layers_steps(num_layers) + seq![
        ("final_norm.weight"@, StorageChange::ToF16),
        ("lm_head.weight"@, StorageChange::ToI8),
    ]
}

/// The view of a list of steps.
pub open spec fn steps_view(steps: Seq<ConversionStep>) -> Seq<(Seq<char>, StorageChange)> {
    steps.map_values(|s: ConversionStep| (s.name@, s.change))
}

fn push_step(out: &mut Vec<ConversionStep>, prefix: &str, l: usize, suffix: &str, change: StorageChange)
    ensures
        steps_view(final(out)@) == steps_view(old(out)@).push((prefix@ + decimal(l as nat) + suffix@, change)),
{
    let mut name = String::new();
    push_str(&mut name, prefix);
    push_decimal(&mut name, l);
    push_str(&mut name, suffix);
    out.push(ConversionStep { name, change });
    assert(steps_view(out@) =~= steps_view(old(out)@).push((prefix@ + decimal(l as nat) + suffix@, change)));
}

fn push_named(out: &mut Vec<ConversionStep>, name: &str, change: StorageChange)
    ensures
        steps_view(final(out)@) == steps_view(old(out)@).push((name@, change)),
{
    out.push(ConversionStep { name: name.to_string(), change });
    assert(steps_view(out@) =~= steps_view(old(out)@).push((name@, change)));
}

/// The weights an INT8 conversion of a model with `num_layers` layers
/// handles, in order, and how each is stored.
pub fn conversion_plan(num_layers: usize) -> (plan: Vec<ConversionStep>)
    ensures
        steps_view(plan@) == conversion_steps(num_layers as nat),
{
    let mut plan: Vec<ConversionStep> = Vec::new();
    push_named(&mut plan, "token_embedding.weight", StorageChange::ToF16);
    let ghost head = steps_view(plan@);
    assert(head =~= seq![("token_embedding.weight"@, StorageChange::ToF16)]);
    let mut l: usize = 0;
    while l < num_layers
        invariant
            0 <= l <= num_layers,
            head == seq![("token_embedding.weight"@, StorageChange::ToF16)],
            steps_view(plan@) == head + layers_steps(l as nat),
        decreases num_layers - l,
    {
        let ghost before = steps_view(plan@);
        push_step(&mut plan, "layers.", l, ".attention_norm.weight", StorageChange::ToF16);
        push_step(&mut plan, "layers.", l, ".attention.q_proj.weight", StorageChange::ToI8);
        push_step(&mut plan, "layers.", l, ".attention.k_proj.weight", StorageChange::ToI8);
        push_step(&mut plan, "layers.", l, ".attention.v_proj.weight", StorageChange::ToI8);
        push_step(&mut plan, "layers.", l, ".attention.out_proj.weight", StorageChange::ToI8);
        push_step(&mut plan, "layers.", l, ".mlp.gate_proj.weight", StorageChange::ToI8);
        push_step(&mut plan, "layers.", l, ".mlp.up_proj.weight", StorageChange::ToI8);
        push_step(&mut plan, "layers.", l, ".mlp.down_proj.weight", StorageChange::ToI8);
        push_step(&mut plan, "layers.", l, ".mlp_norm.weight", StorageChange::ToF16);
        let ghost p = "layers."@ + decimal(l as nat);
        assert(steps_view(plan@) =~= before + layer_steps(l as nat)) by {
            assert(("layers."@ + decimal(l as nat) + ".attention_norm.weight"@) =~= p + ".attention_norm.weight"@);
            assert(("layers."@ + decimal(l as nat) + ".attention.q_proj.weight"@) =~= p + ".attention.q_proj.weight"@);
            assert(("layers."@ + decimal(l as nat) + ".attention.k_proj.weight"@) =~= p + ".attention.k_proj.weight"@);
            assert(("layers."@ + decimal(l as nat) + ".attention.v_proj.weight"@) =~= p + ".attention.v_proj.weight"@);
            assert(("layers."@ + decimal(l as nat) + ".attention.out_proj.weight"@) =~= p + ".attention.out_proj.weight"@);
            assert(("layers."@ + decimal(l as nat) + ".mlp.gate_proj.weight"@) =~= p + ".mlp.gate_proj.weight"@);
            assert(("layers."@ + decimal(l as nat) + ".mlp.up_proj.weight"@) =~= p + ".mlp.up_proj.weight"@);
            assert(("layers."@ + decimal(l as nat) + ".mlp.down_proj.weight"@) =~= p + ".mlp.down_proj.weight"@);
            assert(("layers."@ + decimal(l as nat) + ".mlp_norm.weight"@) =~= p + ".mlp_norm.weight"@);
        }
        assert(layers_steps((l + 1) as nat) == layers_steps(l as nat) + layer_steps(l as nat));
        l = l + 1;
        assert(steps_view(plan@) =~= head + layers_steps(l as nat));
    }
    let ghost mid = steps_view(plan@);
    push_named(&mut plan, "final_norm.weight", StorageChange::ToF16);
    push_named(&mut plan, "lm_head.weight", StorageChange::ToI8);
    assert(steps_view(plan@) =~= conversion_steps(num_layers as nat));
    plan
}

/// The F32 elements of a weight that is to be converted, to INT8 where
/// `quantized` holds and to F16 otherwise; other storage is refused.
pub fn f32_source(name: &str, data: WeightData, quantized: bool) -> (r: Result<Vec<u32>>)
    ensures
        r is Ok <==> data is F32,
        r matches Ok(v) ==> data@ == WeightValues::F32(v@),
        r matches Err(e) ==> e matches TinyError::ModelFormat(m) && m@ == if quantized {
            "INT8 quantizer expects F32 source weight "@ + name@
        } else {
            "expected F32 source weight "@ + name@
        },
{
    match data {
        WeightData::F32(v) => Ok(v),
        _ => {
            let mut message = if quantized {
                "INT8 quantizer expects F32 source weight ".to_string()
            } else {
                "expected F32 source weight ".to_string()
            };
            push_str(&mut message, name);
            Err(TinyError::ModelFormat(message))
        },
    }
}

/// Rows and columns of a linear weight to be quantized; a weight that is
/// not of rank 2 is refused.
pub fn linear_dims(name: &str, shape: &[usize]) -> (r: Result<(usize, usize)>)
    ensures
        r is Ok <==> shape@.len() == 2,
        r matches Ok(d) ==> d.0 == shape@[0] && d.1 == shape@[1],
        r matches Err(e) ==> e matches TinyError::InvalidDimension(m) && m@
            == "INT8 quantization expects rank-2 Linear weight "@ + name@ + ", got "@ + dims_text(shape@),
{
    if shape.len() != 2 {
        let mut message = "INT8 quantization expects rank-2 Linear weight ".to_string();
        push_str(&mut message, name);
        push_str(&mut message, ", got ");
        let dims = vstd::slice::slice_to_vec(shape);
        push_dims(&mut message, &dims);
        return Err(TinyError::InvalidDimension(message));
    }
    Ok((shape[0], shape[1]))
}


/// Names of layer weights differ when their layers or their suffixes differ
/// (suffixes that start with `.`).
pub proof fn lemma_layer_names_differ(a: nat, s1: Seq<char>, b: nat, s2: Seq<char>)
    requires
        s1.len() > 0 && s1[0] == '.',
        s2.len() > 0 && s2[0] == '.',
        a != b || s1 != s2,
    ensures
        "layers."@ + decimal(a) + s1 != "layers."@ + decimal(b) + s2,
{
    reveal_strlit("layers.");
    lemma_decimal_digits(a);
    lemma_decimal_digits(b);
    let x = decimal(a);
    let y = decimal(b);
    let n1 = "layers."@ + x + s1;
    let n2 = "layers."@ + y + s2;
    if n1 == n2 {
        if x.len() < y.len() {
            assert(n1[7 + x.len() as int] == s1[0]);
            assert(n2[7 + x.len() as int] == y[x.len() as int]);
        } else if y.len() < x.len() {
            assert(n2[7 + y.len() as int] == s2[0]);
            assert(n1[7 + y.len() as int] == x[y.len() as int]);
        } else {
            assert(x =~= n1.subrange(7, 7 + x.len() as int));
            assert(y =~= n2.subrange(7, 7 + y.len() as int));
            lemma_decimal_injective(a, b);
            assert(s1 =~= n1.skip(7 + x.len() as int));
            assert(s2 =~= n2.skip(7 + y.len() as int));
        }
    }
}

/// The name suffix of the `k`-th weight of a layer in conversion order.
pub open spec fn conversion_suffix(k: int) -> Seq<char> {
    if k == 0 {
        ".attention_norm.weight"@
    } else if k == 1 {
        ".attention.q_proj.weight"@
    } else if k == 2 {
        ".attention.k_proj.weight"@
    } else if k == 3 {
        ".attention.v_proj.weight"@
    } else if k == 4 {
        ".attention.out_proj.weight"@
    } else if k == 5 {
        ".mlp.gate_proj.weight"@
    } else if k == 6 {
        ".mlp.up_proj.weight"@
    } else if k == 7 {
        ".mlp.down_proj.weight"@
    } else {
        ".mlp_norm.weight"@
    }
}

proof fn lemma_conversion_suffixes()
    ensures
        forall|k: int| 0 <= k < 9 ==> (#[trigger] conversion_suffix(k)).len() > 0 && conversion_suffix(k)[0] == '.',
        forall|k1: int, k2: int| 0 <= k1 < 9 && 0 <= k2 < 9 && k1 != k2 ==> #[trigger] conversion_suffix(k1)
            != #[trigger] conversion_suffix(k2),
{
    reveal_strlit(".attention_norm.weight");
    reveal_strlit(".attention.q_proj.weight");
    reveal_strlit(".attention.k_proj.weight");
    reveal_strlit(".attention.v_proj.weight");
    reveal_strlit(".attention.out_proj.weight");
    reveal_strlit(".mlp.gate_proj.weight");
    reveal_strlit(".mlp.up_proj.weight");
    reveal_strlit(".mlp.down_proj.weight");
    reveal_strlit(".mlp_norm.weight");
    assert forall|k1: int, k2: int| 0 <= k1 < 9 && 0 <= k2 < 9 && k1 != k2 implies #[trigger] conversion_suffix(k1)
        != #[trigger] conversion_suffix(k2) by {
        let a = conversion_suffix(k1);
        let b = conversion_suffix(k2);
        if a.len() == b.len() {
            if a == b {
                assert(a[5] == b[5]);
                assert(a[11] == b[11]);
            }
        }
    }
}

proof fn lemma_layer_steps_names(l: nat)
    ensures
        layer_steps(l).len() == 9,
        forall|k: int| 0 <= k < 9 ==> (#[trigger] layer_steps(l)[k]).0 == "layers."@ + decimal(l) + conversion_suffix(k),
{
}

proof fn lemma_layers_steps_index(n: nat)
    ensures
        layers_steps(n).len() == 9 * n,
        forall|l: int, k: int| 0 <= l < n && 0 <= k < 9 ==> #[trigger] layers_steps(n)[9 * l + k] == layer_steps(l as nat)[k],
    decreases n,
{
    if n > 0 {
        lemma_layers_steps_index((n - 1) as nat);
        lemma_layer_steps_names((n - 1) as nat);
        assert forall|l: int, k: int| 0 <= l < n && 0 <= k < 9 implies #[trigger] layers_steps(n)[9 * l + k] == layer_steps(l as nat)[k] by {
            if l < n - 1 {
                assert(layers_steps((n - 1) as nat)[9 * l + k] == layer_steps(l as nat)[k]);
                assert(9 * l + k < 9 * (n - 1)) by (nonlinear_arith)
                    requires
                        l < n - 1,
                        k < 9,
                ;
            } else {
                assert(9 * l + k - 9 * (n - 1) == k);
            }
        }
    }
}

/// Every weight an INT8 conversion handles is named once.
pub proof fn lemma_conversion_names_distinct(num_layers: nat)
    ensures
        forall|i: int, j: int| 0 <= i < j < conversion_steps(num_layers).len() ==> #[trigger] conversion_steps(num_layers)[i].0
            != #[trigger] conversion_steps(num_layers)[j].0,
{
    let steps = conversion_steps(num_layers);
    let n = num_layers as int;
    lemma_layers_steps_index(num_layers);
    lemma_conversion_suffixes();
    reveal_strlit("token_embedding.weight");
    reveal_strlit("final_norm.weight");
    reveal_strlit("lm_head.weight");
    reveal_strlit("layers.");
    assert(steps.len() == 9 * n + 3);
    assert forall|i: int, j: int| 0 <= i < j < steps.len() implies #[trigger] steps[i].0 != #[trigger] steps[j].0 by {
        let in_layers = |x: int| 1 <= x <= 9 * n;
        if in_layers(i) && in_layers(j) {
            let li = (i - 1) / 9;
            let ki = (i - 1) % 9;
            let lj = (j - 1) / 9;
            let kj = (j - 1) % 9;
            assert(0 <= li < n && 0 <= lj < n) by (nonlinear_arith)
                requires
                    1 <= i <= 9 * n,
                    1 <= j <= 9 * n,
                    li == (i - 1) / 9,
                    lj == (j - 1) / 9,
            ;
            assert(steps[i] == layers_steps(num_layers)[9 * li + ki]);
            assert(steps[j] == layers_steps(num_layers)[9 * lj + kj]);
            lemma_layer_steps_names(li as nat);
            lemma_layer_steps_names(lj as nat);
            assert(li != lj || ki != kj);
            lemma_layer_names_differ(li as nat, conversion_suffix(ki), lj as nat, conversion_suffix(kj));
        } else if in_layers(j) {
            let lj = (j - 1) / 9;
            let kj = (j - 1) % 9;
            assert(0 <= lj < n) by (nonlinear_arith)
                requires
                    1 <= j <= 9 * n,
                    lj == (j - 1) / 9,
            ;
            assert(steps[j] == layers_steps(num_layers)[9 * lj + kj]);
            lemma_layer_steps_names(lj as nat);
            assert(steps[j].0[0] == 'l' && steps[j].0[1] == 'a');
        } else if in_layers(i) {
            let li = (i - 1) / 9;
            let ki = (i - 1) % 9;
            assert(0 <= li < n) by (nonlinear_arith)
                requires
                    1 <= i <= 9 * n,
                    li == (i - 1) / 9,
            ;
            assert(steps[i] == layers_steps(num_layers)[9 * li + ki]);
            lemma_layer_steps_names(li as nat);
            assert(steps[i].0[0] == 'l' && steps[i].0[1] == 'a');
        } else {
            if steps[i].0 == steps[j].0 {
                assert(steps[i].0[0] == steps[j].0[0]);
                assert(steps[i].0[1] == steps[j].0[1]);
            }
        }
    }
}


/// The name of weight `suffix` of layer `l`.
pub open spec fn layer_weight(l: nat, suffix: Seq<char>) -> Seq<char> {
    "layers."@ + decimal(l) + suffix
}

/// An INT8 conversion of a model with `n` layers quantizes, in every layer,
/// each of the seven linear projections (`q_proj`, `k_proj`, `v_proj`,
/// `out_proj`, `gate_proj`, `up_proj`, `down_proj`) and keeps both norms as
/// F16; it quantizes the output head and keeps the token embedding and the
/// final norm as F16. With one step per name, this is the whole plan.
pub proof fn lemma_plan_quantizes_linear_weights(n: nat, l: nat)
    requires
        l < n,
    ensures
        conversion_steps(n).len() == 9 * n + 3,
        conversion_steps(n).contains((layer_weight(l, ".attention_norm.weight"@), StorageChange::ToF16)),
        conversion_steps(n).contains((layer_weight(l, ".attention.q_proj.weight"@), StorageChange::ToI8)),
        conversion_steps(n).contains((layer_weight(l, ".attention.k_proj.weight"@), StorageChange::ToI8)),
        conversion_steps(n).contains((layer_weight(l, ".attention.v_proj.weight"@), StorageChange::ToI8)),
        conversion_steps(n).contains((layer_weight(l, ".attention.out_proj.weight"@), StorageChange::ToI8)),
        conversion_steps(n).contains((layer_weight(l, ".mlp.gate_proj.weight"@), StorageChange::ToI8)),
        conversion_steps(n).contains((layer_weight(l, ".mlp.up_proj.weight"@), StorageChange::ToI8)),
        conversion_steps(n).contains((layer_weight(l, ".mlp.down_proj.weight"@), StorageChange::ToI8)),
        conversion_steps(n).contains((layer_weight(l, ".mlp_norm.weight"@), StorageChange::ToF16)),
        conversion_steps(n).contains(("token_embedding.weight"@, StorageChange::ToF16)),
        conversion_steps(n).contains(("final_norm.weight"@, StorageChange::ToF16)),
        conversion_steps(n).contains(("lm_head.weight"@, StorageChange::ToI8)),
{
    let steps = conversion_steps(n);
    lemma_layers_steps_index(n);
    let li = l as int;
    assert(9 * li + 9 <= 9 * n) by (nonlinear_arith)
        requires
            li < n,
    ;
    assert forall|k: int| 0 <= k < 9 implies #[trigger] steps[1 + 9 * li + k] == layer_steps(l)[k] by {
        assert(steps[1 + 9 * li + k] == layers_steps(n)[9 * li + k]);
    }
    assert(steps[1 + 9 * li + 0] == layer_steps(l)[0]);
    assert(steps[1 + 9 * li + 1] == layer_steps(l)[1]);
    assert(steps[1 + 9 * li + 2] == layer_steps(l)[2]);
    assert(steps[1 + 9 * li + 3] == layer_steps(l)[3]);
    assert(steps[1 + 9 * li + 4] == layer_steps(l)[4]);
    assert(steps[1 + 9 * li + 5] == layer_steps(l)[5]);
    assert(steps[1 + 9 * li + 6] == layer_steps(l)[6]);
    assert(steps[1 + 9 * li + 7] == layer_steps(l)[7]);
    assert(steps[1 + 9 * li + 8] == layer_steps(l)[8]);
    assert(steps[0] == ("token_embedding.weight"@, StorageChange::ToF16));
    assert(steps[9 * n as int + 1] == ("final_norm.weight"@, StorageChange::ToF16));
    assert(steps[9 * n as int + 2] == ("lm_head.weight"@, StorageChange::ToI8));
}


/// Whether `s` ends with `suffix`.
pub open spec fn ends_with(s: Seq<char>, suffix: Seq<char>) -> bool {
    suffix.len() <= s.len() && s.subrange(s.len() - suffix.len(), s.len() as int) == suffix
}

/// Whether `name` is the name of a linear weight: a projection, whose name
/// ends in `_proj.weight`, or the output head.
pub open spec fn is_linear_weight(name: Seq<char>) -> bool {
    name == "lm_head.weight"@ || ends_with(name, "_proj.weight"@)
}

proof fn lemma_tail_of_concat(p: Seq<char>, suffix: Seq<char>, m: int)
    requires
        0 <= m <= suffix.len(),
    ensures
        (p + suffix).subrange((p + suffix).len() - m, (p + suffix).len() as int) == suffix.subrange(
            suffix.len() - m,
            suffix.len() as int,
        ),
{
    assert((p + suffix).subrange((p + suffix).len() - m, (p + suffix).len() as int) =~= suffix.subrange(
        suffix.len() - m,
        suffix.len() as int,
    ));
}

proof fn lemma_layer_step_kind(l: nat, k: int)
    requires
        0 <= k < 9,
    ensures
        (layer_steps(l)[k].1 == StorageChange::ToI8) == is_linear_weight(layer_steps(l)[k].0),
{
    reveal_strlit("layers.");
    reveal_strlit("lm_head.weight");
    reveal_strlit("_proj.weight");
    reveal_strlit(".attention_norm.weight");
    reveal_strlit(".attention.q_proj.weight");
    reveal_strlit(".attention.k_proj.weight");
    reveal_strlit(".attention.v_proj.weight");
    reveal_strlit(".attention.out_proj.weight");
    reveal_strlit(".mlp.gate_proj.weight");
    reveal_strlit(".mlp.up_proj.weight");
    reveal_strlit(".mlp.down_proj.weight");
    reveal_strlit(".mlp_norm.weight");
    lemma_layer_steps_names(l);
    let p = "layers."@ + decimal(l);
    let suffix = conversion_suffix(k);
    let name = layer_steps(l)[k].0;
    assert(name == p + suffix);
    assert(name[1] == 'a');
    assert("lm_head.weight"@[1] == 'm');
    assert(name != "lm_head.weight"@);
    assert(suffix.len() >= 12);
    lemma_tail_of_concat(p, suffix, 12);
    let tail = suffix.subrange(suffix.len() - 12, suffix.len() as int);
    if k == 0 || k == 8 {
        assert(tail[1] == 'n');
        assert(tail != "_proj.weight"@);
    } else {
        assert(tail =~= "_proj.weight"@);
    }
}

/// An INT8 conversion quantizes exactly the linear weights: a step stores
/// its weight as INT8 if and only if the weight is a projection (its name
/// ends in `_proj.weight`) or the output head; every other weight (the
/// norms and the token embedding) is kept as F16.
pub proof fn lemma_plan_quantizes_exactly_linear_weights(n: nat)
    ensures
        forall|i: int|
            0 <= i < conversion_steps(n).len() ==> ((#[trigger] conversion_steps(n)[i]).1 == StorageChange::ToI8)
                == is_linear_weight(conversion_steps(n)[i].0),
{
    reveal_strlit("token_embedding.weight");
    reveal_strlit("final_norm.weight");
    reveal_strlit("lm_head.weight");
    reveal_strlit("_proj.weight");
    let steps = conversion_steps(n);
    lemma_layers_steps_index(n);
    assert forall|i: int| 0 <= i < steps.len() implies ((#[trigger] steps[i]).1 == StorageChange::ToI8)
        == is_linear_weight(steps[i].0) by {
        if i == 0 {
            let name = "token_embedding.weight"@;
            assert(steps[i].0 == name);
            assert(name[0] != "lm_head.weight"@[0]);
            assert(name.subrange(name.len() - 12, name.len() as int)[0] != "_proj.weight"@[0]);
        } else if i == 9 * n + 1 {
            let name = "final_norm.weight"@;
            assert(steps[i].0 == name);
            assert(name[0] != "lm_head.weight"@[0]);
            assert(name.subrange(name.len() - 12, name.len() as int)[1] != "_proj.weight"@[1]);
        } else if i == 9 * n + 2 {
            assert(steps[i].0 == "lm_head.weight"@);
        } else {
            let l = (i - 1) / 9;
            let k = (i - 1) % 9;
            assert(0 <= l < n);
            assert(9 * l + k == i - 1);
            assert(steps[i] == layers_steps(n)[9 * l + k]);
            assert(layers_steps(n)[9 * l + k] == layer_steps(l as nat)[k]);
            lemma_layer_step_kind(l as nat, k);
        }
    }
}

} // verus!
