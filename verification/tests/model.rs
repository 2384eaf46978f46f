use tiny_metal_llm::error::TinyError;
use tiny_metal_llm::import::llama::{map_llama_weights, model_config_from_llama, LlamaConfigFile};
use tiny_metal_llm::import::safetensors::{
    decode_tensor_data, import_safetensors, import_tensors, inspect_safetensors, inspect_tensors, RawDtype,
    RawTensor,
};
use tiny_metal_llm::model::config::ModelConfig;
use tiny_metal_llm::model::kv_cache::{KvCache, LayerKvCache};
use tiny_metal_llm::model::quantization::{conversion_plan, f32_source, linear_dims, linear_scale_name, StorageChange};
use tiny_metal_llm::model::weights::{checked_numel, ModelWeights, WeightData};
use tiny_metal_llm::tensor::{check_activation_dtype, DType, TensorMeta};

fn bits(values: &[f32]) -> Vec<u32> {
    values.iter().map(|v| v.to_bits()).collect()
}

fn insert(weights: &mut ModelWeights, name: &str, shape: &[usize], data: Vec<f32>) {
    weights.insert_f32(name, shape, bits(&data)).unwrap();
}

fn one_layer_source() -> ModelWeights {
    let mut weights = ModelWeights::new();
    let matrix = vec![1.0, 2.0, 3.0, 4.0];

    insert(&mut weights, "lm_head.weight", &[2, 2], matrix.clone());
    insert(&mut weights, "model.norm.weight", &[2], vec![1.0, 1.0]);

    let layer = "model.layers.0";
    insert(&mut weights, &format!("{layer}.input_layernorm.weight"), &[2], vec![1.0, 1.0]);
    insert(&mut weights, &format!("{layer}.post_attention_layernorm.weight"), &[2], vec![1.0, 1.0]);

    for name in ["q_proj", "k_proj", "v_proj", "o_proj"] {
        insert(&mut weights, &format!("{layer}.self_attn.{name}.weight"), &[2, 2], matrix.clone());
    }

    for name in ["gate_proj", "up_proj", "down_proj"] {
        insert(&mut weights, &format!("{layer}.mlp.{name}.weight"), &[2, 2], matrix.clone());
    }

    weights
}

#[test]
fn maps_tied_lm_head_as_token_embedding() {
    let converted = map_llama_weights(one_layer_source(), 1).unwrap();

    let embedding = converted.get("token_embedding.weight").unwrap();
    assert_eq!(embedding.shape(), &[2, 2]);
    assert_eq!(embedding.data(), bits(&[1.0, 2.0, 3.0, 4.0]).as_slice());

    let lm_head = converted.get("lm_head.weight").unwrap();
    assert_eq!(lm_head.shape(), &[2, 2]);
    assert_eq!(lm_head.data(), bits(&[1.0, 3.0, 2.0, 4.0]).as_slice());

    let q_proj = converted.get("layers.0.attention.q_proj.weight").unwrap();
    assert_eq!(q_proj.data(), bits(&[1.0, 3.0, 2.0, 4.0]).as_slice());
    assert_eq!(converted.len(), 12);
}

#[test]
fn missing_layer_weight_is_reported() {
    let mut source = one_layer_source();
    source.take("model.layers.0.mlp.up_proj.weight").unwrap();
    assert!(matches!(
        map_llama_weights(source, 1),
        Err(TinyError::MissingWeight(name)) if name == "model.layers.0.mlp.up_proj.weight"
    ));
}

#[test]
fn unused_half_precision_tensor_does_not_stop_the_mapping() {
    let mut source = one_layer_source();
    source.insert_f16("model.rotary_emb.inv_freq", &[1], vec![0x3c00]).unwrap();
    let converted = map_llama_weights(source, 1).unwrap();
    assert_eq!(converted.len(), 12);
}

#[test]
fn llama_linear_weight_must_be_a_matrix() {
    let mut source = one_layer_source();
    source.take("model.layers.0.self_attn.k_proj.weight").unwrap();
    insert(&mut source, "model.layers.0.self_attn.k_proj.weight", &[4], vec![1.0, 2.0, 3.0, 4.0]);
    assert!(matches!(
        map_llama_weights(source, 1),
        Err(TinyError::ModelFormat(m))
            if m == "cannot transpose model.layers.0.self_attn.k_proj.weight: expected rank 2, got shape [4]"
    ));
    let mut untied = one_layer_source();
    untied.take("lm_head.weight").unwrap();
    assert!(matches!(
        map_llama_weights(untied, 1),
        Err(TinyError::MissingWeight(name)) if name == "lm_head.weight"
    ));
}

fn llama_config(num_key_value_heads: Option<usize>, attention_bias: Option<bool>) -> LlamaConfigFile {
    LlamaConfigFile {
        vocab_size: 8,
        hidden_size: 4,
        intermediate_size: 8,
        num_hidden_layers: 1,
        num_attention_heads: 2,
        num_key_value_heads,
        attention_bias,
        mlp_bias: None,
        max_position_embeddings: 16,
        rms_norm_eps: 0.00001f32.to_bits(),
        rope_theta: 10000.0f32.to_bits(),
    }
}

#[test]
fn rejects_grouped_query_attention() {
    let error = model_config_from_llama(&llama_config(Some(1), None)).unwrap_err();

    assert!(error.message().contains("grouped-query attention"));
    assert_eq!(
        error.message(),
        "invalid model format: grouped-query attention is not supported: num_key_value_heads=1, num_attention_heads=2"
    );
}

#[test]
fn rejects_models_with_bias_tensors() {
    let error = model_config_from_llama(&llama_config(None, Some(true))).unwrap_err();

    assert!(error.message().contains("bias tensors"));
}

#[test]
fn converts_plain_llama_config() {
    let config = model_config_from_llama(&llama_config(Some(2), Some(false))).unwrap();
    assert_eq!(config.num_layers, 1);
    assert_eq!(config.num_kv_heads, 2);
    assert_eq!(config.max_seq_len, 16);
    assert_eq!(config.head_dim(), 2);
}

fn gqa_config(num_heads: usize, num_kv_heads: usize) -> ModelConfig {
    ModelConfig {
        vocab_size: 100,
        hidden_size: 576,
        intermediate_size: 1536,
        num_layers: 4,
        num_heads,
        num_kv_heads,
        max_seq_len: 1024,
        rms_norm_eps: 1e-5f32.to_bits(),
        rope_theta: 10_000.0f32.to_bits(),
    }
}

#[test]
fn validates_gqa_config_and_reports_group_sizes() {
    let config = gqa_config(9, 3);

    config.validate().unwrap();
    assert_eq!(config.head_dim(), 64);
    assert_eq!(config.q_proj_size(), 576);
    assert_eq!(config.kv_proj_size(), 192);
    assert_eq!(config.num_kv_groups(), 3);
}

#[test]
fn rejects_non_divisible_kv_head_count() {
    let mut config = gqa_config(10, 3);
    config.hidden_size = 640;

    let error = config.validate().unwrap_err();

    assert!(error.message().contains("num_heads 10 must be divisible by num_kv_heads 3"));
}

#[test]
fn config_shape_errors() {
    let mut config = gqa_config(9, 3);
    config.rms_norm_eps = f32::NAN.to_bits();
    assert!(matches!(config.validate(), Err(TinyError::InvalidShape(_))));
    let mut config = gqa_config(9, 3);
    config.vocab_size = 0;
    assert!(matches!(config.validate(), Err(TinyError::InvalidShape(_))));
    let mut config = gqa_config(9, 3);
    config.rope_theta = (-1.0f32).to_bits();
    assert!(matches!(config.validate(), Err(TinyError::InvalidShape(_))));
}

#[test]
fn weights_refuse_invalid_and_duplicate_entries() {
    let mut weights = ModelWeights::new();
    assert!(weights.is_empty());
    assert!(matches!(weights.insert_f32("", &[1], vec![0]), Err(TinyError::ModelFormat(_))));
    assert!(matches!(weights.insert_f32("a", &[], vec![0]), Err(TinyError::ModelFormat(_))));
    assert!(matches!(weights.insert_f32("a", &[2, 0], vec![]), Err(TinyError::ModelFormat(_))));
    assert!(matches!(weights.insert_f32("a", &[2], vec![0]), Err(TinyError::ModelFormat(_))));
    weights.insert_f32("a", &[2], vec![0, 1]).unwrap();
    assert!(matches!(weights.insert_i8("a", &[1], vec![3]), Err(TinyError::ModelFormat(_))));
    weights.insert_i8("b", &[1], vec![3]).unwrap();
    weights.insert_f16("c", &[1], vec![0x3c00]).unwrap();
    assert_eq!(weights.len(), 3);
    assert!(weights.contains_i8());
    assert!(!weights.all_f32());
    assert_eq!(weights.names(), vec!["a".to_string(), "b".to_string(), "c".to_string()]);
    assert!(matches!(weights.get("z"), Err(TinyError::MissingWeight(ref m)) if m == "z"));
    let taken = weights.take("b").unwrap();
    assert!(matches!(taken.into_storage_parts(), (ref s, WeightData::I8(ref d)) if s == &vec![1] && d == &vec![3]));
    assert!(!weights.contains("b"));
    assert!(!weights.contains_i8());
}

#[test]
fn checked_numel_detects_overflow() {
    assert_eq!(checked_numel(&[2, 3, 4]).unwrap(), 24);
    assert_eq!(checked_numel(&[]).unwrap(), 1);
    assert!(matches!(checked_numel(&[usize::MAX, 2]), Err(TinyError::ModelFormat(_))));
}

#[test]
fn weight_file_roundtrips_mixed_storage() {
    let mut weights = ModelWeights::new();
    weights.insert_f32("w", &[2, 2], bits(&[1.0, -2.0, 0.5, 3.25])).unwrap();
    weights.insert_f16("h", &[3], vec![0x3c00, 0xc000, 0x0001]).unwrap();
    weights.insert_i8("q", &[2], vec![-127, 5]).unwrap();

    let bytes = weights.to_bytes().unwrap();
    assert_eq!(&bytes[..8], b"TMLLWGHT");
    assert_eq!(&bytes[8..12], &1u32.to_le_bytes());
    assert_eq!(&bytes[12..16], &3u32.to_le_bytes());

    let loaded = ModelWeights::from_bytes(&bytes).unwrap();
    assert_eq!(loaded.len(), 3);
    assert_eq!(loaded.get("w").unwrap().shape(), &[2, 2]);
    assert_eq!(loaded.get("w").unwrap().data(), bits(&[1.0, -2.0, 0.5, 3.25]).as_slice());
    assert!(matches!(&loaded.get("h").unwrap().data, WeightData::F16(v) if v == &vec![0x3c00, 0xc000, 0x0001]));
    assert!(matches!(&loaded.get("q").unwrap().data, WeightData::I8(v) if v == &vec![-127, 5]));
    assert_eq!(loaded.to_bytes().unwrap(), bytes);
}

#[test]
fn weight_file_rejects_bad_input() {
    assert!(matches!(ModelWeights::from_bytes(b"NOTMAGIC\x01\x00\x00\x00\x00\x00\x00\x00"), Err(TinyError::ModelFormat(_))));
    let empty = ModelWeights::new().to_bytes().unwrap();
    assert_eq!(ModelWeights::from_bytes(&empty).unwrap().len(), 0);
    let mut truncated = {
        let mut w = ModelWeights::new();
        w.insert_f32("w", &[1], vec![7]).unwrap();
        w.to_bytes().unwrap()
    };
    truncated.pop();
    assert!(matches!(
        ModelWeights::from_bytes(&truncated),
        Err(TinyError::Io(m)) if m == "failed to fill whole buffer"
    ));
    let mut versioned = empty.clone();
    versioned[8] = 2;
    assert!(matches!(
        ModelWeights::from_bytes(&versioned),
        Err(TinyError::ModelFormat(m)) if m == "unsupported weight format version"
    ));
    assert!(matches!(
        ModelWeights::from_bytes(b"TMLLWG"),
        Err(TinyError::Io(m)) if m == "failed to fill whole buffer"
    ));
}

/// One record of a weight file: name, element type tag, dimensions, count.
fn record(name: &[u8], tag: u8, dims: &[u64], count: u64) -> Vec<u8> {
    let mut out = (name.len() as u32).to_le_bytes().to_vec();
    out.extend_from_slice(name);
    out.push(tag);
    out.extend_from_slice(&(dims.len() as u32).to_le_bytes());
    for d in dims {
        out.extend_from_slice(&d.to_le_bytes());
    }
    out.extend_from_slice(&count.to_le_bytes());
    out
}

fn weight_file(count: u32, records: &[Vec<u8>]) -> Vec<u8> {
    let mut out = b"TMLLWGHT".to_vec();
    out.extend_from_slice(&1u32.to_le_bytes());
    out.extend_from_slice(&count.to_le_bytes());
    for r in records {
        out.extend_from_slice(r);
    }
    out
}

fn read_error(bytes: &[u8]) -> String {
    match ModelWeights::from_bytes(bytes) {
        Err(TinyError::ModelFormat(m)) => m,
        other => panic!("expected a format error, got {other:?}"),
    }
}

#[test]
fn weight_file_reports_bad_records() {
    assert_eq!(read_error(&weight_file(1, &[record(b"", 1, &[1], 1)])), "invalid weight name length 0");
    assert_eq!(read_error(&weight_file(1, &[record(b"w", 9, &[1], 1)])), "unsupported dtype 9 for weight w");
    assert_eq!(read_error(&weight_file(1, &[record(b"w", 1, &[], 1)])), "invalid rank 0 for weight w");
    assert_eq!(read_error(&weight_file(1, &[record(b"w", 1, &[2, 0], 0)])), "weight w has a zero-sized dimension");
    assert_eq!(read_error(&weight_file(1, &[record(b"w", 1, &[2], 3)])), "weight w declares an invalid element count");
    assert_eq!(read_error(&weight_file(1, &[record(b"\xff", 1, &[1], 1)])), "invalid UTF-8 weight name");
    let mut one = record(b"w", 3, &[1], 1);
    one.push(5);
    assert_eq!(read_error(&weight_file(2, &[one.clone(), one])), "invalid or duplicate INT8 weight: w");
}

fn safetensors_file(header: &str, data: &[u8]) -> Vec<u8> {
    let mut bytes = (header.len() as u64).to_le_bytes().to_vec();
    bytes.extend_from_slice(header.as_bytes());
    bytes.extend_from_slice(data);
    bytes
}

#[test]
fn imports_safetensors_bytes() {
    let mut data = Vec::new();
    for v in [1.0f32, 2.0] {
        data.extend_from_slice(&v.to_le_bytes());
    }
    data.extend_from_slice(&0x3c00u16.to_le_bytes());
    data.extend_from_slice(&0x3f80u16.to_le_bytes());
    let header = "{\"a\":{\"dtype\":\"F32\",\"shape\":[2],\"data_offsets\":[0,8]},\"b\":{\"dtype\":\"F16\",\"shape\":[1],\"data_offsets\":[8,10]},\"c\":{\"dtype\":\"BF16\",\"shape\":[1],\"data_offsets\":[10,12]}}";
    let bytes = safetensors_file(header, &data);

    let weights = import_safetensors(&bytes).unwrap();
    assert_eq!(weights.len(), 3);
    assert_eq!(weights.get("a").unwrap().data(), bits(&[1.0, 2.0]).as_slice());
    assert!(matches!(&weights.get("b").unwrap().data, WeightData::F16(v) if v == &vec![0x3c00]));
    assert_eq!(weights.get("c").unwrap().data(), &[1.0f32.to_bits()]);

    let infos = inspect_safetensors(&bytes).unwrap();
    let names: Vec<&str> = infos.iter().map(|i| i.name.as_str()).collect();
    assert_eq!(names, vec!["a", "b", "c"]);
    assert_eq!(infos[0].numel, 2);
    assert_eq!(infos[0].rank(), 1);
    assert_eq!(infos[2].dtype, RawDtype::BF16);

    assert!(matches!(import_safetensors(b"short"), Err(TinyError::ModelFormat(_))));
}

#[test]
fn import_checks_each_tensor() {
    let tensor = |name: &str, dtype: RawDtype, shape: Vec<usize>, data: Vec<u8>| RawTensor {
        name: name.to_string(),
        dtype,
        shape,
        data,
    };
    assert!(matches!(
        import_tensors(&[tensor("s", RawDtype::F32, vec![], vec![0; 4])]),
        Err(TinyError::ModelFormat(m)) if m == "scalar tensor is not supported yet: s"
    ));
    assert!(matches!(
        import_tensors(&[tensor("z", RawDtype::F32, vec![2, 0], vec![])]),
        Err(TinyError::ModelFormat(m)) if m == "zero-sized tensor is not supported yet: z [2, 0]"
    ));
    assert!(matches!(
        import_tensors(&[tensor("i", RawDtype::Other("I32".to_string()), vec![1], vec![0; 4])]),
        Err(TinyError::UnsupportedDType(m))
            if m == "safetensors tensor i uses I32; importer currently supports only F32, F16 and BF16"
    ));
    assert!(matches!(
        import_tensors(&[tensor("b", RawDtype::F32, vec![1], vec![0; 3])]),
        Err(TinyError::ModelFormat(m)) if m == "F32 tensor b has invalid byte length 3"
    ));
    assert!(matches!(
        import_tensors(&[tensor("m", RawDtype::F32, vec![2], vec![0; 4])]),
        Err(TinyError::ModelFormat(m)) if m == "tensor m decoded to 1 values, but shape [2] requires 2"
    ));
    assert!(matches!(
        import_tensors(&[tensor("o", RawDtype::F32, vec![usize::MAX, 2], vec![0; 4])]),
        Err(TinyError::ModelFormat(m)) if m == format!("tensor element count overflow for o: [{}, 2]", usize::MAX)
    ));
    assert!(matches!(
        import_tensors(&[tensor("d", RawDtype::F32, vec![1], vec![0; 4]), tensor("d", RawDtype::F32, vec![1], vec![0; 4])]),
        Err(TinyError::ModelFormat(m)) if m == "duplicate weight: d"
    ));
    let ok = import_tensors(&[tensor("x", RawDtype::F32, vec![1], vec![0, 0, 0x80, 0x3f])]).unwrap();
    assert_eq!(ok.get("x").unwrap().data(), &[1.0f32.to_bits()]);
}

#[test]
fn decodes_tensor_bytes() {
    assert!(matches!(decode_tensor_data("w", &RawDtype::F32, &[0, 0, 0x80, 0x3f]), Ok(WeightData::F32(v)) if v == vec![0x3f80_0000]));
    assert!(matches!(
        decode_tensor_data("w", &RawDtype::F32, &[0, 0, 0x80]),
        Err(TinyError::ModelFormat(m)) if m == "F32 tensor w has invalid byte length 3"
    ));
    assert!(matches!(decode_tensor_data("w", &RawDtype::F16, &[0x00, 0x3c]), Ok(WeightData::F16(v)) if v == vec![0x3c00]));
    assert!(matches!(decode_tensor_data("w", &RawDtype::BF16, &[0x80, 0x3f]), Ok(WeightData::F32(v)) if v == vec![0x3f80_0000]));
    // a signalling NaN gains the quiet bit, as half's conversion does
    assert!(matches!(decode_tensor_data("w", &RawDtype::BF16, &[0x81, 0x7f]), Ok(WeightData::F32(v)) if v == vec![0x7fc1_0000]));
    assert!(matches!(
        decode_tensor_data("w", &RawDtype::BF16, &[0x80]),
        Err(TinyError::ModelFormat(m)) if m == "BF16 tensor w has invalid byte length 1"
    ));
    assert!(matches!(
        decode_tensor_data("h", &RawDtype::F16, &[0x80, 0, 0]),
        Err(TinyError::ModelFormat(m)) if m == "F16 tensor h has invalid byte length 3"
    ));
}

#[test]
fn inspects_tensors_sorted_by_name() {
    let t = |name: &str, shape: Vec<usize>| RawTensor { name: name.to_string(), dtype: RawDtype::F32, shape, data: vec![] };
    let infos = inspect_tensors(&[t("b", vec![2, 3]), t("a", vec![4]), t("c", vec![])]).unwrap();
    let names: Vec<&str> = infos.iter().map(|i| i.name.as_str()).collect();
    assert_eq!(names, vec!["a", "b", "c"]);
    assert_eq!(infos[1].numel, 6);
    assert_eq!(infos[2].numel, 1);
    assert!(matches!(
        inspect_tensors(&[t("a", vec![2]), t("big", vec![usize::MAX, 3])]),
        Err(TinyError::ModelFormat(m)) if m == format!("tensor element count overflow for big: [{}, 3]", usize::MAX)
    ));
}

#[test]
fn scale_names_replace_weight_suffix() {
    assert_eq!(linear_scale_name("layers.0.mlp.up_proj.weight"), "layers.0.mlp.up_proj.scale");
    assert_eq!(linear_scale_name("lm_head"), "lm_head.scale");
    assert_eq!(linear_scale_name(".weight"), ".scale");
}

#[test]
fn conversion_plan_lists_every_weight_once() {
    let plan = conversion_plan(2);
    assert_eq!(plan.len(), 1 + 2 * 9 + 2);
    assert_eq!(plan[0].name, "token_embedding.weight");
    assert_eq!(plan[0].change, StorageChange::ToF16);
    assert_eq!(plan[1].name, "layers.0.attention_norm.weight");
    assert_eq!(plan[2].name, "layers.0.attention.q_proj.weight");
    assert_eq!(plan[2].change, StorageChange::ToI8);
    assert_eq!(plan[10].name, "layers.1.attention_norm.weight");
    assert_eq!(plan[18].name, "layers.1.mlp_norm.weight");
    assert_eq!(plan[19].name, "final_norm.weight");
    assert_eq!(plan[20].name, "lm_head.weight");
    assert_eq!(plan[20].change, StorageChange::ToI8);
    assert!(matches!(
        f32_source("x", WeightData::I8(vec![1]), true),
        Err(TinyError::ModelFormat(m)) if m == "INT8 quantizer expects F32 source weight x"
    ));
    assert!(matches!(
        f32_source("y", WeightData::F16(vec![1]), false),
        Err(TinyError::ModelFormat(m)) if m == "expected F32 source weight y"
    ));
    assert_eq!(f32_source("x", WeightData::F32(vec![5]), true).unwrap(), vec![5]);
    assert!(matches!(
        linear_dims("x", &[1, 2, 3]),
        Err(TinyError::InvalidDimension(m)) if m == "INT8 quantization expects rank-2 Linear weight x, got [1, 2, 3]"
    ));
    assert_eq!(linear_dims("x", &[4, 5]).unwrap(), (4, 5));
}

#[test]
fn f16_cache_rejects_f32_inputs_without_casting() {
    let mut cache = LayerKvCache::new(2, 8, 4, DType::F16).unwrap();
    let key = TensorMeta::new(&[1, 2, 1, 4], DType::F32);
    let value = TensorMeta::new(&[1, 2, 1, 4], DType::F32);

    assert!(cache.append(&key, &value).is_err());
    assert_eq!(cache.len(), 0);
}

#[test]
fn kv_cache_appends_and_resets() {
    let mut cache = LayerKvCache::new(2, 8, 4, DType::F16).unwrap();
    assert_eq!(cache.dtype(), DType::F16);
    assert!(cache.is_empty());
    let decode = TensorMeta::new(&[1, 2, 1, 4], DType::F16);
    cache.append(&decode, &decode).unwrap();
    cache.append(&decode, &decode).unwrap();
    assert_eq!(cache.len(), 2);
    let prefill = TensorMeta::new(&[1, 2, 3, 4], DType::F16);
    cache.append(&prefill, &prefill).unwrap();
    assert_eq!(cache.len(), 5);
    assert_eq!(cache.capacity(), 8);
    let too_long = TensorMeta::new(&[1, 2, 4, 4], DType::F16);
    assert!(matches!(
        cache.append(&too_long, &too_long),
        Err(TinyError::PositionOutOfRange { start_pos: 5, seq_len: 4, max_seq_len: 8 })
    ));
    let wrong_heads = TensorMeta::new(&[1, 3, 1, 4], DType::F16);
    assert!(matches!(cache.append(&wrong_heads, &wrong_heads), Err(TinyError::ModelFormat(_))));
    assert!(matches!(cache.append(&decode, &prefill), Err(TinyError::ModelFormat(_))));
    assert_eq!(cache.len(), 5);
    assert_eq!(cache.storage_bytes(), 2 * 2 * 8 * 4 * 2);
    cache.reset();
    assert_eq!(cache.len(), 0);
    assert_eq!(cache.storage_bytes(), 2 * 2 * 8 * 4 * 2);
    assert!(matches!(LayerKvCache::new(0, 8, 4, DType::F32), Err(TinyError::InvalidShape(_))));
}

#[test]
fn model_cache_has_one_layer_cache_per_layer() {
    let mut cache = KvCache::new(3, 16, 2, 4, DType::F32).unwrap();
    assert_eq!(cache.num_layers(), 3);
    assert_eq!(cache.max_seq_len(), 16);
    assert_eq!(cache.storage_bytes(), 3 * 2 * 2 * 16 * 4 * 4);
    let token = TensorMeta::new(&[1, 2, 1, 4], DType::F32);
    cache.layer_mut(1).unwrap().append(&token, &token).unwrap();
    assert_eq!(cache.layer_mut(1).unwrap().len(), 1);
    assert_eq!(cache.layer_mut(0).unwrap().len(), 0);
    assert!(matches!(cache.layer_mut(3), Err(TinyError::ModelFormat(_))));
    cache.reset();
    assert_eq!(cache.layer_mut(1).unwrap().len(), 0);
    assert!(KvCache::new(0, 0, 0, 0, DType::F32).is_ok());
    assert!(matches!(KvCache::new(1, 0, 2, 4, DType::F32), Err(TinyError::InvalidShape(_))));
}

#[test]
fn saves_and_loads_a_weight_collection() {
    let mut weights = ModelWeights::new();
    weights.insert_f32("layer.weight", &[2, 2], bits(&[1.0, 2.0, 3.0, 4.0])).unwrap();

    let bytes = weights.to_bytes().unwrap();
    let loaded = ModelWeights::from_bytes(&bytes).unwrap();

    assert_eq!(loaded.get("layer.weight").unwrap().shape(), &[2, 2]);
    assert_eq!(loaded.get("layer.weight").unwrap().data(), bits(&[1.0, 2.0, 3.0, 4.0]).as_slice());
}

#[test]
fn saves_and_loads_f16_weight_collection() {
    let mut weights = ModelWeights::new();
    let halves: Vec<u16> = [1.0f32, -2.0, 0.5, 3.25].iter().map(|&v| half::f16::from_f32(v).to_bits()).collect();
    weights.insert_f16("layer.weight", &[2, 2], halves).unwrap();

    let bytes = weights.to_bytes().unwrap();
    let loaded = ModelWeights::from_bytes(&bytes).unwrap();

    assert_eq!(loaded.get("layer.weight").unwrap().shape(), &[2, 2]);
    match &loaded.get("layer.weight").unwrap().data {
        WeightData::F16(data) => assert_eq!(
            data.iter().map(|&b| half::f16::from_bits(b).to_f32()).collect::<Vec<_>>(),
            vec![1.0, -2.0, 0.5, 3.25]
        ),
        WeightData::F32(_) => panic!("expected F16 weights"),
        WeightData::I8(_) => panic!("expected F16 weights"),
    }
}

#[test]
fn saves_and_loads_mixed_dtype_weights() {
    let mut weights = ModelWeights::new();

    weights
        .insert_f16("embedding.weight", &[2], vec![half::f16::from_f32(1.0).to_bits(), half::f16::from_f32(2.0).to_bits()])
        .unwrap();
    weights.insert_i8("linear.weight", &[2, 2], vec![127, -127, 64, -64]).unwrap();
    weights.insert_f32("linear.scale", &[2], bits(&[0.01, 0.02])).unwrap();

    let loaded = ModelWeights::from_bytes(&weights.to_bytes().unwrap()).unwrap();

    assert!(matches!(&loaded.get("embedding.weight").unwrap().data, WeightData::F16(_)));
    assert!(matches!(&loaded.get("linear.weight").unwrap().data, WeightData::I8(_)));
    assert!(matches!(&loaded.get("linear.scale").unwrap().data, WeightData::F32(_)));
}

#[test]
fn f16_cache_appends_decode_tokens_and_returns_f16_prefix() {
    let mut cache = LayerKvCache::new(2, 8, 4, DType::F16).unwrap();
    assert_eq!(cache.dtype(), DType::F16);
    assert_eq!(cache.len(), 0);

    let token = TensorMeta::new(&[1, 2, 1, 4], DType::F16);
    cache.append(&token, &token).unwrap();
    cache.append(&token, &token).unwrap();

    assert_eq!(cache.len(), 2);
}

#[test]
fn f16_cache_appends_prefill_sequence() {
    let mut cache = LayerKvCache::new(2, 8, 4, DType::F16).unwrap();
    let prompt = TensorMeta::new(&[1, 2, 3, 4], DType::F16);

    cache.append(&prompt, &prompt).unwrap();

    assert_eq!(cache.len(), 3);
}

#[test]
fn append_encode_updates_the_logical_prefix_after_submission() {
    let mut cache = LayerKvCache::new(2, 8, 2, DType::F16).unwrap();
    let token = TensorMeta::new(&[1, 2, 1, 2], DType::F16);

    cache.append(&token, &token).unwrap();

    assert_eq!(cache.len(), 1);
}

#[test]
fn activation_dtype_must_match_the_request() {
    assert!(check_activation_dtype(DType::F16, DType::F16).is_ok());
    assert!(matches!(check_activation_dtype(DType::F32, DType::F16), Err(TinyError::ModelFormat(_))));
}
