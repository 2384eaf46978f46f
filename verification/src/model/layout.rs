//! Taking a model's weights out of a weight collection in the order the
//! transformer is built, checking each weight's shape against the
//! configuration and pairing INT8 linear weights with their scales.
use vstd::prelude::*;

use crate::error::{dims_text, push_dims, Result, TinyError};
use crate::model::config::{kv_head_text, ModelConfig};
use crate::model::quantization::{lemma_layer_names_differ, linear_scale_name, scale_name};
use crate::model::weights::{ModelWeights, WeightData, WeightMap, WeightTensor, WeightValues, WeightView};
use crate::text::{decimal, push_decimal, push_str};

verus! {

/// How a weight is used: as a plain tensor, or as a linear layer, which may
/// be stored as INT8 with per-column scales.
#[derive(Debug, Clone, Copy, PartialEq, Eq, Structural)]
pub enum WeightRole {
    Tensor,
    Linear,
}

/// One weight the transformer needs: its name, expected shape and role.
#[derive(Debug, Clone)]
pub struct LayoutStep {
    pub name: String,
    pub shape: Vec<usize>,
    pub role: WeightRole,
}

/// The view of a [`LayoutStep`].
pub open spec fn step_view(s: LayoutStep) -> (Seq<char>, Seq<usize>, WeightRole) {
    (s.name@, s.shape@, s.role)
}

/// A weight taken out for the transformer, with the scales of an INT8 linear weight.
#[derive(Debug)]
pub struct LoadedWeight {
    pub name: String,
    pub tensor: WeightTensor,
    pub scales: Option<Vec<u32>>,
}

/// The mathematical contents of a [`LoadedWeight`].
pub struct LoadedView {
    pub name: Seq<char>,
    pub tensor: WeightView,
    pub scales: Option<Seq<u32>>,
}

/// The view of a [`LoadedWeight`].
pub open spec fn loaded_view(w: LoadedWeight) -> LoadedView {
    LoadedView {
        name: w.name@,
        tensor: w.tensor@,
        scales: match w.scales {
            Some(s) => Some(s@),
            None => None,
        },
    }
}

/// Why taking a weight failed, with the name or message reported.
pub enum LoadFailure {
    /// The weight, or an INT8 weight's scales, is missing: its name.
    Missing(Seq<char>),
    /// The weight, or an INT8 weight's scales, has the wrong shape.
    Shape(Seq<char>),
    /// An INT8 weight where a plain tensor is needed, or scales not in F32.
    Format(Seq<char>),
}

/// The message refusing weight `name` of shape `actual` where `expected` is needed.
pub open spec fn weight_shape_text(name: Seq<char>, actual: Seq<usize>, expected: Seq<usize>) -> Seq<char> {
    "weight "@ + name + " has shape "@ + dims_text(actual) + ", expected "@ + dims_text(expected)
}

/// Taking one weight out of `m`: the item taken and what is left, or why it failed.
pub open spec fn take_step(m: WeightMap, step: (Seq<char>, Seq<usize>, WeightRole)) -> core::result::Result<(LoadedView, WeightMap), LoadFailure> {
    let (name, shape, role) = step;
    if !m.dom().contains(name) {
        Err(LoadFailure::Missing(name))
    } else if m[name].shape != shape {
        Err(LoadFailure::Shape(weight_shape_text(name, m[name].shape, shape)))
    } else if !(m[name].values is I8) {
        Ok((LoadedView { name, tensor: m[name], scales: None }, m.remove(name)))
    } else if role == WeightRole::Tensor {
        Err(LoadFailure::Format("INT8 weight "@ + name + " must be loaded through QuantizedLinear"@))
    } else {
        let rest = m.remove(name);
        let sn = scale_name(name);
        if !rest.dom().contains(sn) {
            Err(LoadFailure::Missing(sn))
        } else if rest[sn].shape != seq![shape[1]] {
            Err(LoadFailure::Shape("INT8 scale "@ + sn + " shape mismatch: expected "@ + dims_text(seq![shape[1]])
                + ", got "@ + dims_text(rest[sn].shape)))
        } else {
            match rest[sn].values {
                WeightValues::F32(v) => Ok((LoadedView { name, tensor: m[name], scales: Some(v) }, rest.remove(sn))),
                _ => Err(LoadFailure::Format("INT8 scale "@ + sn + " must use F32 storage"@)),
            }
        }
    }
}

/// The first `n` steps taken in order: the items taken and what is left,
/// or why the first failing step failed.
pub open spec fn take_steps(m: WeightMap, steps: Seq<(Seq<char>, Seq<usize>, WeightRole)>, n: int) -> core::result::Result<(Seq<LoadedView>, WeightMap), LoadFailure>
    decreases n,
{
    if n <= 0 {
        Ok((Seq::empty(), m))
    } else {
        match take_steps(m, steps, n - 1) {
            Ok((items, rest)) => match take_step(rest, steps[n - 1]) {
                Ok((item, left)) => Ok((items.push(item), left)),
                Err(f) => Err(f),
            },
            Err(f) => Err(f),
        }
    }
}

/// Whether `e` reports the failure `f`, with its name or message.
pub open spec fn reports(e: TinyError, f: LoadFailure) -> bool {
    match f {
        LoadFailure::Missing(n) => e matches TinyError::MissingWeight(m) && m@ == n,
        LoadFailure::Shape(t) => e matches TinyError::InvalidShape(m) && m@ == t,
        LoadFailure::Format(t) => e matches TinyError::ModelFormat(m) && m@ == t,
    }
}

/// Whether two dimension lists are equal.
fn dims_equal(a: &[usize], b: &[usize]) -> (r: bool)
    ensures
        r == (a@ == b@),
{
    if a.len() != b.len() {
        return false;
    }
    let mut i: usize = 0;
    while i < a.len()
        invariant
            a@.len() == b@.len(),
            0 <= i <= a@.len(),
            forall|j: int| 0 <= j < i ==> a@[j] == b@[j],
        decreases a@.len() - i,
    {
        if a[i] != b[i] {
            return false;
        }
        i = i + 1;
    }
    assert(a@ =~= b@);
    true
}

fn shape_error(name: &str, actual: &Vec<usize>, expected: &[usize]) -> (e: TinyError)
    ensures
        e matches TinyError::InvalidShape(m) && m@ == weight_shape_text(name@, actual@, expected@),
{
    let mut m = "weight ".to_string();
    push_str(&mut m, name);
    push_str(&mut m, " has shape ");
    push_dims(&mut m, actual);
    push_str(&mut m, ", expected ");
    let e = vstd::slice::slice_to_vec(expected);
    push_dims(&mut m, &e);
    TinyError::InvalidShape(m)
}

/// Takes the weight of one step out of `weights`.
pub fn take_weight(weights: &mut ModelWeights, name: &str, shape: &[usize], role: WeightRole) -> (r: Result<LoadedWeight>)
    requires
        old(weights).wf(),
        role == WeightRole::Linear ==> shape@.len() >= 2,
    ensures
        final(weights).wf(),
        r is Ok <==> take_step(old(weights)@, (name@, shape@, role)) is Ok,
        r matches Ok(w) ==> take_step(old(weights)@, (name@, shape@, role)) == core::result::Result::<(LoadedView, WeightMap), LoadFailure>::Ok((loaded_view(w), final(weights)@)),
        r matches Err(e) ==> (take_step(old(weights)@, (name@, shape@, role)) matches Err(f) && reports(e, f)),
{
    let ghost m = weights@;
    let tensor = match weights.take(name) {
        Ok(t) => t,
        Err(e) => {
            return Err(e);
        },
    };
    if !dims_equal(tensor.shape.as_slice(), shape) {
        return Err(shape_error(name, &tensor.shape, shape));
    }
    let is_i8 = match &tensor.data {
        WeightData::I8(_) => true,
        _ => false,
    };
    if !is_i8 {
        return Ok(LoadedWeight { name: name.to_string(), tensor, scales: None });
    }
    match role {
        WeightRole::Tensor => {
            let mut msg = "INT8 weight ".to_string();
            push_str(&mut msg, name);
            push_str(&mut msg, " must be loaded through QuantizedLinear");
            return Err(TinyError::ModelFormat(msg));
        },
        WeightRole::Linear => {},
    }
    let sn = linear_scale_name(name);
    let scale = match weights.take(sn.as_str()) {
        Ok(t) => t,
        Err(e) => {
            return Err(e);
        },
    };
    let expected = vec![tensor.shape[1]];
    assert(expected@ =~= seq![shape@[1]]);
    if !dims_equal(scale.shape.as_slice(), expected.as_slice()) {
        let mut msg = "INT8 scale ".to_string();
        push_str(&mut msg, sn.as_str());
        push_str(&mut msg, " shape mismatch: expected ");
        push_dims(&mut msg, &expected);
        push_str(&mut msg, ", got ");
        push_dims(&mut msg, &scale.shape);
        return Err(TinyError::InvalidShape(msg));
    }
    match scale.data {
        WeightData::F32(v) => Ok(LoadedWeight { name: name.to_string(), tensor, scales: Some(v) }),
        _ => {
            let mut msg = "INT8 scale ".to_string();
            push_str(&mut msg, sn.as_str());
            push_str(&mut msg, " must use F32 storage");
            Err(TinyError::ModelFormat(msg))
        },
    }
}

/// Takes the weights of `steps` out of `weights`, in order, stopping at
/// the first that fails.
pub fn take_weights(weights: ModelWeights, steps: &[LayoutStep]) -> (r: Result<Vec<LoadedWeight>>)
    requires
        weights.wf(),
        forall|i: int| 0 <= i < steps@.len() && (#[trigger] steps@[i]).role == WeightRole::Linear ==> steps@[i].shape@.len() >= 2,
    ensures
        r is Ok <==> take_steps(weights@, steps@.map_values(|s: LayoutStep| step_view(s)), steps@.len() as int) is Ok,
        r matches Ok(items) ==> (take_steps(weights@, steps@.map_values(|s: LayoutStep| step_view(s)), steps@.len() as int)
            matches Ok(p) && p.0 == items@.map_values(|w: LoadedWeight| loaded_view(w))),
        r matches Err(e) ==> (take_steps(weights@, steps@.map_values(|s: LayoutStep| step_view(s)), steps@.len() as int)
            matches Err(f) && reports(e, f)),
{
    let ghost m = weights@;
    let ghost sv = steps@.map_values(|s: LayoutStep| step_view(s));
    let mut rest = weights;
    let mut out: Vec<LoadedWeight> = Vec::new();
    let mut i: usize = 0;
    assert(out@.map_values(|w: LoadedWeight| loaded_view(w)) =~= Seq::<LoadedView>::empty());
    while i < steps.len()
        invariant
            sv == steps@.map_values(|s: LayoutStep| step_view(s)),
            m == weights@,
            0 <= i <= steps@.len(),
            rest.wf(),
            forall|j: int| 0 <= j < steps@.len() && (#[trigger] steps@[j]).role == WeightRole::Linear ==> steps@[j].shape@.len() >= 2,
            take_steps(m, sv, i as int) == core::result::Result::<(Seq<LoadedView>, WeightMap), LoadFailure>::Ok((out@.map_values(|w: LoadedWeight| loaded_view(w)), rest@)),
        decreases steps@.len() - i,
    {
        let step = &steps[i];
        assert(sv[i as int] == (step.name@, step.shape@, step.role));
        let ghost rest_before = rest@;
        let ghost items_before = out@.map_values(|w: LoadedWeight| loaded_view(w));
        let item = match take_weight(&mut rest, step.name.as_str(), step.shape.as_slice(), step.role) {
            Ok(w) => w,
            Err(e) => {
                assert(take_steps(m, sv, i as int + 1) == match take_step(rest_before, sv[i as int]) {
                    Ok((item, left)) => core::result::Result::<(Seq<LoadedView>, WeightMap), LoadFailure>::Ok((items_before.push(item), left)),
                    Err(f) => core::result::Result::<(Seq<LoadedView>, WeightMap), LoadFailure>::Err(f),
                });
                proof {
                    lemma_take_steps_err(m, sv, i as int + 1, steps@.len() as int);
                }
                return Err(e);
            },
        };
        let ghost before = out@.map_values(|w: LoadedWeight| loaded_view(w));
        out.push(item);
        assert(out@.map_values(|w: LoadedWeight| loaded_view(w)) =~= before.push(loaded_view(item)));
        i = i + 1;
    }
    Ok(out)
}

/// Once a prefix of the steps fails, every longer prefix fails the same way.
proof fn lemma_take_steps_err(m: WeightMap, steps: Seq<(Seq<char>, Seq<usize>, WeightRole)>, n: int, k: int)
    requires
        n <= k,
        take_steps(m, steps, n) is Err,
    ensures
        take_steps(m, steps, k) == take_steps(m, steps, n),
    decreases k - n,
{
    if k > n {
        lemma_take_steps_err(m, steps, n, k - 1);
    }
}


/// The weights of layer `l` in the order they are taken: the four attention
/// projections, the two norms, then the three MLP projections.
pub open spec fn block_steps(c: ModelConfig, l: nat) -> Seq<(Seq<char>, Seq<usize>, WeightRole)> {
    let p = "layers."@ + decimal(l);
    let h = c.hidden_size;
    let q = (c.num_heads * (c.hidden_size / c.num_heads)) as usize;
    let kv = (c.num_kv_heads * (c.hidden_size / c.num_heads)) as usize;
    let i = c.intermediate_size;
    seq![
        (p + ".attention.q_proj.weight"@, seq![h, q], WeightRole::Linear),
        (p + ".attention.k_proj.weight"@, seq![h, kv], WeightRole::Linear),
        (p + ".attention.v_proj.weight"@, seq![h, kv], WeightRole::Linear),
        (p + ".attention.out_proj.weight"@, seq![q, h], WeightRole::Linear),
        (p + ".attention_norm.weight"@, seq![h], WeightRole::Tensor),
        (p + ".mlp_norm.weight"@, seq![h], WeightRole::Tensor),
        (p + ".mlp.gate_proj.weight"@, seq![h, i], WeightRole::Linear),
        (p + ".mlp.up_proj.weight"@, seq![h, i], WeightRole::Linear),
        (p + ".mlp.down_proj.weight"@, seq![i, h], WeightRole::Linear),
    ]
}

/// The steps of layers `0..n` in order.
pub open spec fn blocks_steps(c: ModelConfig, n: nat) -> Seq<(Seq<char>, Seq<usize>, WeightRole)>
    decreases n,
{
    if n == 0 {
        Seq::empty()
    } else {
        blocks_steps(c, (n - 1) as nat) + block_steps(c, (n - 1) as nat)
    }
}

/// Every weight a transformer of configuration `c` is built from, in the
/// order it is taken: the token embedding, each layer, the final norm and
/// the output head.
pub open spec fn layout_steps(c: ModelConfig) -> Seq<(Seq<char>, Seq<usize>, WeightRole)> {
    seq![("token_embedding.weight"@, seq![c.vocab_size, c.hidden_size], WeightRole::Tensor)]
        + blocks_steps(c, c.num_layers as nat) + seq![
        ("final_norm.weight"@, seq![c.hidden_size], WeightRole::Tensor),
        ("lm_head.weight"@, seq![c.hidden_size, c.vocab_size], WeightRole::Linear),
    ]
}

fn dims1(a: usize) -> (v: Vec<usize>)
    ensures
        v@ == seq![a],
{
    let mut v = Vec::new();
    v.push(a);
    assert(v@ =~= seq![a]);
    v
}

fn dims2(a: usize, b: usize) -> (v: Vec<usize>)
    ensures
        v@ == seq![a, b],
{
    let mut v = Vec::new();
    v.push(a);
    v.push(b);
    assert(v@ =~= seq![a, b]);
    v
}

fn push_layer_step(out: &mut Vec<LayoutStep>, l: usize, suffix: &str, shape: Vec<usize>, role: WeightRole)
    ensures
        final(out)@.len() == old(out)@.len() + 1,
        forall|i: int| 0 <= i < old(out)@.len() ==> final(out)@[i] == old(out)@[i],
        final(out)@[old(out)@.len() as int].role == role,
        final(out)@[old(out)@.len() as int].shape@ == shape@,
        final(out)@.map_values(|s: LayoutStep| step_view(s)) == old(out)@.map_values(|s: LayoutStep| step_view(s)).push(
            ("layers."@ + decimal(l as nat) + suffix@, shape@, role),
        ),
{
    let mut name = String::new();
    push_str(&mut name, "layers.");
    push_decimal(&mut name, l);
    push_str(&mut name, suffix);
    let ghost before = old(out)@.map_values(|s: LayoutStep| step_view(s));
    out.push(LayoutStep { name, shape, role });
    assert(out@.map_values(|s: LayoutStep| step_view(s)) =~= before.push(("layers."@ + decimal(l as nat) + suffix@, shape@, role)));
}

fn push_named_step(out: &mut Vec<LayoutStep>, name: &str, shape: Vec<usize>, role: WeightRole)
    ensures
        final(out)@.len() == old(out)@.len() + 1,
        forall|i: int| 0 <= i < old(out)@.len() ==> final(out)@[i] == old(out)@[i],
        final(out)@[old(out)@.len() as int].role == role,
        final(out)@[old(out)@.len() as int].shape@ == shape@,
        final(out)@.map_values(|s: LayoutStep| step_view(s)) == old(out)@.map_values(|s: LayoutStep| step_view(s)).push(
            (name@, shape@, role),
        ),
{
    let ghost before = old(out)@.map_values(|s: LayoutStep| step_view(s));
    out.push(LayoutStep { name: name.to_string(), shape, role });
    assert(out@.map_values(|s: LayoutStep| step_view(s)) =~= before.push((name@, shape@, role)));
}

proof fn lemma_kv_width(c: ModelConfig)
    requires
        c.valid(),
    ensures
        c.num_kv_heads * (c.hidden_size / c.num_heads) <= c.num_heads * (c.hidden_size / c.num_heads),
        c.num_heads * (c.hidden_size / c.num_heads) <= c.hidden_size,
{
    let h = c.hidden_size as int;
    let n = c.num_heads as int;
    let k = c.num_kv_heads as int;
    let d = h / n;
    assert(k <= n) by {
        vstd::arithmetic::div_mod::lemma_fundamental_div_mod(n, k);
        assert(n == k * (n / k));
        if n / k == 0 {
            assert(k * 0 == 0);
        } else {
            assert(k * (n / k) >= k) by (nonlinear_arith)
                requires
                    n / k >= 1,
                    k > 0,
            ;
        }
    }
    assert(k * d <= n * d) by (nonlinear_arith)
        requires
            k <= n,
            d >= 0,
    ;
    vstd::arithmetic::div_mod::lemma_fundamental_div_mod(h, n);
    vstd::arithmetic::div_mod::lemma_mod_bound(h, n);
}

/// The weights a transformer of configuration `config` is built from, in
/// the order they are taken.
pub fn layout_plan(config: &ModelConfig) -> (plan: Vec<LayoutStep>)
    requires
        config.valid(),
    ensures
        plan@.map_values(|s: LayoutStep| step_view(s)) == layout_steps(*config),
        forall|i: int| 0 <= i < plan@.len() && (#[trigger] plan@[i]).role == WeightRole::Linear ==> plan@[i].shape@.len() == 2,
{
    proof {
        lemma_kv_width(*config);
    }
    let h = config.hidden_size;
    let q = config.q_proj_size();
    let kv = config.kv_proj_size();
    let inter = config.intermediate_size;
    let mut plan: Vec<LayoutStep> = Vec::new();
    push_named_step(&mut plan, "token_embedding.weight", dims2(config.vocab_size, h), WeightRole::Tensor);
    let ghost head = plan@.map_values(|s: LayoutStep| step_view(s));
    let mut l: usize = 0;
    while l < config.num_layers
        invariant
            config.valid(),
            0 <= l <= config.num_layers,
            h == config.hidden_size,
            q == (config.num_heads * (config.hidden_size / config.num_heads)) as usize,
            kv == (config.num_kv_heads * (config.hidden_size / config.num_heads)) as usize,
            inter == config.intermediate_size,
            head == seq![("token_embedding.weight"@, seq![config.vocab_size, config.hidden_size], WeightRole::Tensor)],
            plan@.map_values(|s: LayoutStep| step_view(s)) == head + blocks_steps(*config, l as nat),
            forall|i: int| 0 <= i < plan@.len() && (#[trigger] plan@[i]).role == WeightRole::Linear ==> plan@[i].shape@.len() == 2,
        decreases config.num_layers - l,
    {
        let ghost before = plan@.map_values(|s: LayoutStep| step_view(s));
        push_layer_step(&mut plan, l, ".attention.q_proj.weight", dims2(h, q), WeightRole::Linear);
        push_layer_step(&mut plan, l, ".attention.k_proj.weight", dims2(h, kv), WeightRole::Linear);
        push_layer_step(&mut plan, l, ".attention.v_proj.weight", dims2(h, kv), WeightRole::Linear);
        push_layer_step(&mut plan, l, ".attention.out_proj.weight", dims2(q, h), WeightRole::Linear);
        push_layer_step(&mut plan, l, ".attention_norm.weight", dims1(h), WeightRole::Tensor);
        push_layer_step(&mut plan, l, ".mlp_norm.weight", dims1(h), WeightRole::Tensor);
        push_layer_step(&mut plan, l, ".mlp.gate_proj.weight", dims2(h, inter), WeightRole::Linear);
        push_layer_step(&mut plan, l, ".mlp.up_proj.weight", dims2(h, inter), WeightRole::Linear);
        push_layer_step(&mut plan, l, ".mlp.down_proj.weight", dims2(inter, h), WeightRole::Linear);
        let ghost p = "layers."@ + decimal(l as nat);
        assert(plan@.map_values(|s: LayoutStep| step_view(s)) =~= before + block_steps(*config, l as nat)) by {
            assert(("layers."@ + decimal(l as nat) + ".attention.q_proj.weight"@) =~= p + ".attention.q_proj.weight"@);
            assert(("layers."@ + decimal(l as nat) + ".attention.k_proj.weight"@) =~= p + ".attention.k_proj.weight"@);
            assert(("layers."@ + decimal(l as nat) + ".attention.v_proj.weight"@) =~= p + ".attention.v_proj.weight"@);
            assert(("layers."@ + decimal(l as nat) + ".attention.out_proj.weight"@) =~= p + ".attention.out_proj.weight"@);
            assert(("layers."@ + decimal(l as nat) + ".attention_norm.weight"@) =~= p + ".attention_norm.weight"@);
            assert(("layers."@ + decimal(l as nat) + ".mlp_norm.weight"@) =~= p + ".mlp_norm.weight"@);
            assert(("layers."@ + decimal(l as nat) + ".mlp.gate_proj.weight"@) =~= p + ".mlp.gate_proj.weight"@);
            assert(("layers."@ + decimal(l as nat) + ".mlp.up_proj.weight"@) =~= p + ".mlp.up_proj.weight"@);
            assert(("layers."@ + decimal(l as nat) + ".mlp.down_proj.weight"@) =~= p + ".mlp.down_proj.weight"@);
        }

        assert(blocks_steps(*config, (l + 1) as nat) == blocks_steps(*config, l as nat) + block_steps(*config, l as nat));
        l = l + 1;
        assert(plan@.map_values(|s: LayoutStep| step_view(s)) =~= head + blocks_steps(*config, l as nat));
    }
    let ghost mid = plan@.len();
    push_named_step(&mut plan, "final_norm.weight", dims1(h), WeightRole::Tensor);
    push_named_step(&mut plan, "lm_head.weight", dims2(h, config.vocab_size), WeightRole::Linear);
    assert(plan@.map_values(|s: LayoutStep| step_view(s)) =~= layout_steps(*config));
    plan
}

/// Takes every weight a transformer of configuration `config` is built
/// from, after checking the configuration: each weight must be present with
/// the shape the configuration gives it; a plain tensor must not be INT8;
/// an INT8 linear weight needs F32 scales of one per output column.
pub fn transformer_weights(config: &ModelConfig, weights: ModelWeights) -> (r: Result<Vec<LoadedWeight>>)
    requires
        weights.wf(),
    ensures
        r is Ok <==> config.valid() && take_steps(weights@, layout_steps(*config), layout_steps(*config).len() as int) is Ok,
        r matches Ok(items) ==> (take_steps(weights@, layout_steps(*config), layout_steps(*config).len() as int)
            matches Ok(p) && p.0 == items@.map_values(|w: LoadedWeight| loaded_view(w))),
        r matches Err(e) ==> (!config.valid() ==> (e is InvalidShape <==> !config.shape_ok())
            && (e is ModelFormat <==> config.shape_ok())),
        !config.valid() ==> (r matches Err(TinyError::InvalidShape(m)) ==> m@ == config.shape_error_text()),
        !config.valid() ==> (r matches Err(TinyError::ModelFormat(m)) ==> m@ == kv_head_text(
            config.num_heads as nat,
            config.num_kv_heads as nat,
        )),
        r matches Err(e) ==> (config.valid() ==> (take_steps(weights@, layout_steps(*config), layout_steps(*config).len() as int)
            matches Err(f) && reports(e, f))),
{
    match config.validate() {
        Ok(()) => {},
        Err(e) => {
            return Err(e);
        },
    }
    let plan = layout_plan(config);
    take_weights(weights, plan.as_slice())
}


/// The name suffix of the `k`-th weight of a layer in build order.
pub open spec fn layout_suffix(k: int) -> Seq<char> {
    if k == 0 {
        ".attention.q_proj.weight"@
    } else if k == 1 {
        ".attention.k_proj.weight"@
    } else if k == 2 {
        ".attention.v_proj.weight"@
    } else if k == 3 {
        ".attention.out_proj.weight"@
    } else if k == 4 {
        ".attention_norm.weight"@
    } else if k == 5 {
        ".mlp_norm.weight"@
    } else if k == 6 {
        ".mlp.gate_proj.weight"@
    } else if k == 7 {
        ".mlp.up_proj.weight"@
    } else {
        ".mlp.down_proj.weight"@
    }
}

proof fn lemma_layout_suffixes()
    ensures
        forall|k: int| 0 <= k < 9 ==> (#[trigger] layout_suffix(k)).len() > 0 && layout_suffix(k)[0] == '.',
        forall|k1: int, k2: int| 0 <= k1 < 9 && 0 <= k2 < 9 && k1 != k2 ==> #[trigger] layout_suffix(k1)
            != #[trigger] layout_suffix(k2),
{
    reveal_strlit(".attention_norm.weight");
    reveal_strlit(".attention.q_proj.weight");
    reveal_strlit(".attention.k_proj.weight");
    reveal_strlit(".attention.v_proj.weight");
    reveal_strlit(".attention.out_proj.weight");
    reveal_strlit(".mlp.gate_proj.weight");
    reveal_strlit(".mlp.up_proj.weight");
    reveal_strlit(".mlp.down_proj.weight");
    reveal_strlit(".mlp_norm.weight");
    assert forall|k1: int, k2: int| 0 <= k1 < 9 && 0 <= k2 < 9 && k1 != k2 implies #[trigger] layout_suffix(k1)
        != #[trigger] layout_suffix(k2) by {
        let a = layout_suffix(k1);
        let b = layout_suffix(k2);
        if a.len() == b.len() {
            if a == b {
                assert(a[5] == b[5]);
                assert(a[11] == b[11]);
            }
        }
    }
}

proof fn lemma_blocks_steps_index(c: ModelConfig, n: nat)
    ensures
        blocks_steps(c, n).len() == 9 * n,
        forall|l: int, k: int| 0 <= l < n && 0 <= k < 9 ==> (#[trigger] blocks_steps(c, n)[9 * l + k]).0
            == "layers."@ + decimal(l as nat) + layout_suffix(k),
    decreases n,
{
    if n > 0 {
        lemma_blocks_steps_index(c, (n - 1) as nat);
        assert forall|l: int, k: int| 0 <= l < n && 0 <= k < 9 implies (#[trigger] blocks_steps(c, n)[9 * l + k]).0
            == "layers."@ + decimal(l as nat) + layout_suffix(k) by {
            if l < n - 1 {
                assert(9 * l + k < 9 * (n - 1)) by (nonlinear_arith)
                    requires
                        l < n - 1,
                        k < 9,
                ;
                assert(blocks_steps(c, n)[9 * l + k] == blocks_steps(c, (n - 1) as nat)[9 * l + k]);
            } else {
                assert(blocks_steps(c, n)[9 * l + k] == block_steps(c, l as nat)[k]);
            }
        }
    }
}

/// Every weight a transformer is built from is named once.
pub proof fn lemma_layout_names_distinct(c: ModelConfig)
    ensures
        forall|i: int, j: int| 0 <= i < j < layout_steps(c).len() ==> #[trigger] layout_steps(c)[i].0
            != #[trigger] layout_steps(c)[j].0,
{
    let steps = layout_steps(c);
    let n = c.num_layers as int;
    lemma_blocks_steps_index(c, c.num_layers as nat);
    lemma_layout_suffixes();
    reveal_strlit("token_embedding.weight");
    reveal_strlit("final_norm.weight");
    reveal_strlit("lm_head.weight");
    reveal_strlit("layers.");
    assert(steps.len() == 9 * n + 3);
    assert forall|i: int, j: int| 0 <= i < j < steps.len() implies #[trigger] steps[i].0 != #[trigger] steps[j].0 by {
        let in_layers = |x: int| 1 <= x <= 9 * n;
        if in_layers(i) && in_layers(j) {
            let li = (i - 1) / 9;
            let ki = (i - 1) % 9;
            let lj = (j - 1) / 9;
            let kj = (j - 1) % 9;
            assert(0 <= li < n && 0 <= lj < n) by (nonlinear_arith)
                requires
                    1 <= i <= 9 * n,
                    1 <= j <= 9 * n,
                    li == (i - 1) / 9,
                    lj == (j - 1) / 9,
            ;
            assert(steps[i] == blocks_steps(c, c.num_layers as nat)[9 * li + ki]);
            assert(steps[j] == blocks_steps(c, c.num_layers as nat)[9 * lj + kj]);
            assert(li != lj || ki != kj);
            lemma_layer_names_differ(li as nat, layout_suffix(ki), lj as nat, layout_suffix(kj));
        } else if in_layers(j) {
            let lj = (j - 1) / 9;
            let kj = (j - 1) % 9;
            assert(0 <= lj < n) by (nonlinear_arith)
                requires
                    1 <= j <= 9 * n,
                    lj == (j - 1) / 9,
            ;
            assert(steps[j] == blocks_steps(c, c.num_layers as nat)[9 * lj + kj]);
            assert(steps[j].0[0] == 'l' && steps[j].0[1] == 'a');
        } else if in_layers(i) {
            let li = (i - 1) / 9;
            let ki = (i - 1) % 9;
            assert(0 <= li < n) by (nonlinear_arith)
                requires
                    1 <= i <= 9 * n,
                    li == (i - 1) / 9,
            ;
            assert(steps[i] == blocks_steps(c, c.num_layers as nat)[9 * li + ki]);
            assert(steps[i].0[0] == 'l' && steps[i].0[1] == 'a');
        } else {
            if steps[i].0 == steps[j].0 {
                assert(steps[i].0[0] == steps[j].0[0]);
                assert(steps[i].0[1] == steps[j].0[1]);
            }
        }
    }
}

} // verus!
