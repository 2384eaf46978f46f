use tiny_metal_llm::error::TinyError;
use tiny_metal_llm::model::config::ModelConfig;
use tiny_metal_llm::model::layout::{layout_plan, transformer_weights, WeightRole};
use tiny_metal_llm::model::weights::ModelWeights;

fn tiny_config() -> ModelConfig {
    ModelConfig {
        vocab_size: 4,
        hidden_size: 2,
        intermediate_size: 4,
        num_layers: 1,
        num_heads: 1,
        num_kv_heads: 1,
        max_seq_len: 8,
        rms_norm_eps: 1e-5f32.to_bits(),
        rope_theta: 10_000.0f32.to_bits(),
    }
}

fn f32s(n: usize) -> Vec<u32> {
    (0..n).map(|i| (i as f32).to_bits()).collect()
}

fn tiny_weights() -> ModelWeights {
    let mut w = ModelWeights::new();
    let mut put = |name: &str, shape: &[usize]| {
        let n = shape.iter().product();
        w.insert_f32(name, shape, f32s(n)).unwrap();
    };
    put("token_embedding.weight", &[4, 2]);
    put("layers.0.attention.q_proj.weight", &[2, 2]);
    put("layers.0.attention.k_proj.weight", &[2, 2]);
    put("layers.0.attention.v_proj.weight", &[2, 2]);
    put("layers.0.attention.out_proj.weight", &[2, 2]);
    put("layers.0.attention_norm.weight", &[2]);
    put("layers.0.mlp_norm.weight", &[2]);
    put("layers.0.mlp.gate_proj.weight", &[2, 4]);
    put("layers.0.mlp.up_proj.weight", &[2, 4]);
    put("layers.0.mlp.down_proj.weight", &[4, 2]);
    put("final_norm.weight", &[2]);
    put("lm_head.weight", &[2, 4]);
    w
}

#[test]
fn plan_lists_weights_in_build_order() {
    let plan = layout_plan(&tiny_config());
    let names: Vec<&str> = plan.iter().map(|s| s.name.as_str()).collect();
    assert_eq!(
        names,
        vec![
            "token_embedding.weight",
            "layers.0.attention.q_proj.weight",
            "layers.0.attention.k_proj.weight",
            "layers.0.attention.v_proj.weight",
            "layers.0.attention.out_proj.weight",
            "layers.0.attention_norm.weight",
            "layers.0.mlp_norm.weight",
            "layers.0.mlp.gate_proj.weight",
            "layers.0.mlp.up_proj.weight",
            "layers.0.mlp.down_proj.weight",
            "final_norm.weight",
            "lm_head.weight",
        ]
    );
    assert_eq!(plan[11].shape, vec![2, 4]);
    assert_eq!(plan[11].role, WeightRole::Linear);
    assert_eq!(plan[5].role, WeightRole::Tensor);
}

#[test]
fn takes_every_weight_with_its_shape() {
    let taken = transformer_weights(&tiny_config(), tiny_weights()).unwrap();
    assert_eq!(taken.len(), 12);
    assert_eq!(taken[0].name, "token_embedding.weight");
    assert_eq!(taken[0].tensor.shape, vec![4, 2]);
    assert!(taken.iter().all(|w| w.scales.is_none()));
}

#[test]
fn reports_missing_and_misshaped_weights() {
    let mut w = tiny_weights();
    w.take("layers.0.mlp_norm.weight").unwrap();
    assert!(matches!(transformer_weights(&tiny_config(), w), Err(TinyError::MissingWeight(ref m)) if m == "layers.0.mlp_norm.weight"));

    let mut w = tiny_weights();
    w.take("lm_head.weight").unwrap();
    w.insert_f32("lm_head.weight", &[4, 2], f32s(8)).unwrap();
    assert!(matches!(transformer_weights(&tiny_config(), w), Err(TinyError::InvalidShape(_))));

    let mut bad = tiny_config();
    bad.num_heads = 0;
    assert!(matches!(transformer_weights(&bad, tiny_weights()), Err(TinyError::InvalidShape(_))));
}

#[test]
fn pairs_int8_linear_weights_with_scales() {
    let mut w = tiny_weights();
    w.take("lm_head.weight").unwrap();
    w.insert_i8("lm_head.weight", &[2, 4], vec![1, 2, 3, 4, 5, 6, 7, 8]).unwrap();
    assert!(matches!(transformer_weights(&tiny_config(), w), Err(TinyError::MissingWeight(ref m)) if m == "lm_head.scale"));

    let mut w = tiny_weights();
    w.take("lm_head.weight").unwrap();
    w.insert_i8("lm_head.weight", &[2, 4], vec![1, 2, 3, 4, 5, 6, 7, 8]).unwrap();
    w.insert_f32("lm_head.scale", &[2], f32s(2)).unwrap();
    assert!(matches!(transformer_weights(&tiny_config(), w), Err(TinyError::InvalidShape(_))));

    let mut w = tiny_weights();
    w.take("lm_head.weight").unwrap();
    w.insert_i8("lm_head.weight", &[2, 4], vec![1, 2, 3, 4, 5, 6, 7, 8]).unwrap();
    w.insert_f16("lm_head.scale", &[4], vec![0; 4]).unwrap();
    assert!(matches!(transformer_weights(&tiny_config(), w), Err(TinyError::ModelFormat(_))));

    let mut w = tiny_weights();
    w.take("lm_head.weight").unwrap();
    w.insert_i8("lm_head.weight", &[2, 4], vec![1, 2, 3, 4, 5, 6, 7, 8]).unwrap();
    w.insert_f32("lm_head.scale", &[4], f32s(4)).unwrap();
    let taken = transformer_weights(&tiny_config(), w).unwrap();
    assert_eq!(taken[11].scales, Some(f32s(4)));
}

#[test]
fn int8_plain_tensor_is_refused() {
    let mut w = tiny_weights();
    w.take("final_norm.weight").unwrap();
    w.insert_i8("final_norm.weight", &[2], vec![1, 2]).unwrap();
    assert!(matches!(transformer_weights(&tiny_config(), w), Err(TinyError::ModelFormat(_))));
}

use tiny_metal_llm::model::assembly::{check_attention, check_block, check_embedding, check_linear, check_mlp, check_model, LinearShape};
use tiny_metal_llm::tensor::{DType, TensorMeta};

fn lin(in_features: usize, out_features: usize) -> LinearShape {
    LinearShape { in_features, out_features, dtype: DType::F16 }
}

#[test]
fn attention_checks_head_layout() {
    // hidden 8, 4 query heads of dimension 2, 2 key/value heads
    assert_eq!(check_attention(&lin(8, 8), &lin(8, 4), &lin(8, 4), &lin(8, 8), 2, 4, 2).unwrap(), 2);
    assert!(matches!(check_attention(&lin(8, 8), &lin(8, 4), &lin(8, 4), &lin(8, 8), 2, 0, 2), Err(TinyError::InvalidShape(_))));
    assert!(matches!(check_attention(&lin(8, 8), &lin(8, 8), &lin(8, 4), &lin(8, 8), 2, 4, 2), Err(TinyError::InvalidShape(_))));
    assert!(matches!(check_attention(&lin(8, 8), &lin(8, 6), &lin(8, 6), &lin(8, 8), 2, 4, 3), Err(TinyError::InvalidShape(_))));
    assert!(matches!(check_attention(&lin(8, 8), &lin(8, 4), &lin(8, 4), &lin(8, 8), 4, 4, 2), Err(TinyError::InvalidShape(_))));
    let k32 = LinearShape { in_features: 8, out_features: 4, dtype: DType::F32 };
    assert!(matches!(check_attention(&lin(8, 8), &k32, &lin(8, 4), &lin(8, 8), 2, 4, 2), Err(TinyError::UnsupportedDType(_))));
}

#[test]
fn block_checks_hidden_sizes_then_dtypes() {
    assert!(check_block(8, DType::F16, (8, DType::F16), (8, DType::F16), (8, 8, DType::F16)).is_ok());
    assert!(matches!(check_block(8, DType::F16, (8, DType::F16), (8, DType::F16), (8, 6, DType::F32)), Err(TinyError::InvalidShape(_))));
    assert!(matches!(check_block(8, DType::F16, (8, DType::F16), (8, DType::F32), (8, 8, DType::F16)), Err(TinyError::UnsupportedDType(_))));
}

#[test]
fn model_checks_parts_against_config() {
    let c = tiny_config();
    assert!(check_model(&c, (4, 2), &[2], 2, &lin(2, 4)).is_ok());
    assert!(matches!(check_model(&c, (5, 2), &[2], 2, &lin(2, 4)), Err(TinyError::InvalidShape(_))));
    assert!(matches!(check_model(&c, (4, 2), &[2, 2], 2, &lin(2, 4)), Err(TinyError::InvalidShape(_))));
    assert!(matches!(check_model(&c, (4, 2), &[3], 2, &lin(2, 4)), Err(TinyError::InvalidShape(_))));
    assert!(matches!(check_model(&c, (4, 2), &[2], 2, &lin(2, 5)), Err(TinyError::InvalidShape(_))));
    let mut grouped = c;
    grouped.num_heads = 1;
    grouped.num_kv_heads = 2;
    assert!(matches!(check_model(&grouped, (4, 2), &[2], 2, &lin(2, 4)), Err(TinyError::ModelFormat(_))));
}

#[test]
fn taken_weights_assemble() {
    let c = tiny_config();
    let taken = transformer_weights(&c, tiny_weights()).unwrap();
    let shape = |i: usize| lin(taken[i].tensor.shape[0], taken[i].tensor.shape[1]);
    let head_dim = check_attention(&shape(1), &shape(2), &shape(3), &shape(4), 2, c.num_heads, c.num_kv_heads).unwrap();
    assert_eq!(head_dim, 2);
    let mlp = (taken[7].tensor.shape[0], taken[9].tensor.shape[1], DType::F16);
    assert!(check_block(2, DType::F16, (taken[5].tensor.shape[0], DType::F16), (taken[6].tensor.shape[0], DType::F16), mlp).is_ok());
    assert!(check_model(&c, (taken[0].tensor.shape[0], taken[0].tensor.shape[1]), &[2], taken[10].tensor.shape[0], &shape(11)).is_ok());
}

#[test]
fn layer_weights_must_be_matrices() {
    assert_eq!(check_embedding(&TensorMeta::new(&[10, 4], DType::F16)).unwrap(), (10, 4));
    assert!(matches!(
        check_embedding(&TensorMeta::new(&[10], DType::F32)),
        Err(TinyError::InvalidDimension(m)) if m == "Embedding weight must have rank 2, got rank 1"
    ));
    let linear = check_linear(&TensorMeta::new(&[4, 8], DType::F32)).unwrap();
    assert_eq!(linear, LinearShape { in_features: 4, out_features: 8, dtype: DType::F32 });
    assert!(matches!(
        check_linear(&TensorMeta::new(&[2, 2, 2], DType::F32)),
        Err(TinyError::InvalidDimension(m)) if m == "Linear weight must have rank 2, got rank 3"
    ));
}

#[test]
fn mlp_projections_must_agree() {
    let l = |i: usize, o: usize| LinearShape { in_features: i, out_features: o, dtype: DType::F32 };
    assert!(check_mlp(&l(4, 8), &l(4, 8), &l(8, 4)).is_ok());
    assert!(matches!(
        check_mlp(&l(4, 8), &l(5, 8), &l(8, 4)),
        Err(TinyError::InvalidShape(m)) if m == "gate_proj and up_proj must have the same input size"
    ));
    assert!(matches!(
        check_mlp(&l(4, 8), &l(4, 9), &l(8, 4)),
        Err(TinyError::InvalidShape(m)) if m == "gate_proj and up_proj must have the same output size"
    ));
    assert!(matches!(
        check_mlp(&l(4, 8), &l(4, 8), &l(9, 4)),
        Err(TinyError::InvalidShape(m)) if m == "down_proj input size must match intermediate size"
    ));
}
