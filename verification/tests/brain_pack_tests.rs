use decoupled_ai::brain_pack::container::read_header;
use decoupled_ai::brain_pack::download::{chunk_ranges, DownloadConfig, CHUNK_SIZE, MAX_CONCURRENT_CHUNKS};
use decoupled_ai::brain_pack::format::{
    DataType, Metadata, ModelInfo, Q4KBlock, QuantizationScheme, ShardDesc, TensorIndexEntry,
    TensorInfo, BRAIN_MAGIC, NUM_SHARDS,
};
use decoupled_ai::brain_pack::layers::{count_layers, extract_layer_index};
use decoupled_ai::brain_pack::pack::{weights_checksum, BrainPack, BrainPackBuilder, PackError};
use decoupled_ai::brain_pack::safetensors::{
    build_model_info, header_bounds, infer_hidden_size, infer_num_heads, packed_offsets, tensor_info_to_brain,
    SafetensorsDtype, SafetensorsError, SafetensorsHeader, SafetensorsReader,
    SafetensorsTensorInfo,
};
use decoupled_ai::brain_pack::shard::{is_resident_tensor, locate_in_stream_shard, plan_shards};
use decoupled_ai::brain_pack::shard_index::{ShardIndex, ShardIndexError};
use decoupled_ai::brain_pack::sharded::{assemble_shard_index, route_names, ShardedModel};

fn model() -> ModelInfo {
    ModelInfo {
        name: "test-model".to_string(),
        architecture: "test".to_string(),
        parameter_count: 1000,
        quantization: "f16".to_string(),
        context_length: 2048,
        vocab_size: 32000,
    }
}

fn metadata() -> Metadata {
    Metadata {
        created_epoch: 1234567890,
        created_by: "test".to_string(),
        checksum: String::new(),
        license: "test".to_string(),
        description: "test model".to_string(),
    }
}

fn tensor(name: &str, shape: Vec<u64>, dtype: DataType) -> TensorInfo {
    TensorInfo {
        name: name.to_string(),
        shape,
        dtype,
        offset: 0,
        size_bytes: 0,
        quantization: None,
        quantization_type: QuantizationScheme::Unquantized,
    }
}

fn two_tensor_pack() -> BrainPack {
    let tensor_data: Vec<u8> = (0..100).map(|i| (i % 256) as u8).collect();
    let tensor_data2: Vec<u8> = (100..200).map(|i| (i % 256) as u8).collect();
    BrainPackBuilder::new()
        .model(model())
        .metadata(metadata())
        .add_tensor(tensor("layer1.weight", vec![10, 10], DataType::F16), &tensor_data)
        .unwrap()
        .add_tensor(tensor("layer2.weight", vec![10, 10], DataType::F16), &tensor_data2)
        .unwrap()
        .build()
        .unwrap()
}

#[test]
fn test_magic_bytes() {
    assert_eq!(BRAIN_MAGIC, *b"BRAIN.1\0");
}

#[test]
fn test_tensor_index_entry_size() {
    assert_eq!(std::mem::size_of::<TensorIndexEntry>(), 144);
}

#[test]
fn test_dtype_alignment() {
    assert_eq!(DataType::F32.alignment(), 4);
    assert_eq!(DataType::F16.alignment(), 2);
    assert_eq!(DataType::Q4KM.alignment(), 64);
}

#[test]
fn test_dtype_parsing() {
    assert_eq!(SafetensorsDtype::from_str("F32"), Some(SafetensorsDtype::F32));
    assert_eq!(SafetensorsDtype::from_str("f16"), Some(SafetensorsDtype::F16));
    assert_eq!(SafetensorsDtype::from_str("BF16"), Some(SafetensorsDtype::BF16));
    assert_eq!(SafetensorsDtype::from_str("I32"), Some(SafetensorsDtype::I32));
    assert_eq!(SafetensorsDtype::from_str("UNKNOWN"), None);
}

#[test]
fn test_pack_unpack_roundtrip() {
    let pack = two_tensor_pack();
    let manifest_json = b"{\"version\":1,\"format\":\"brain\"}";
    let bytes = pack.encode_with_manifest(manifest_json);

    let mlen = read_header(&bytes).unwrap();
    assert_eq!(&bytes[16..16 + mlen], &manifest_json[..]);

    let pack2 = BrainPack::from_parts(&bytes, pack.manifest.clone()).unwrap();
    assert_eq!(pack2.manifest.model.name, "test-model");
    assert_eq!(pack2.manifest.tensors.len(), 2);

    let t1 = pack2.get_tensor("layer1.weight").unwrap();
    assert_eq!(t1.data.len(), 100);
    let t2 = pack2.get_tensor("layer2.weight").unwrap();
    assert_eq!(t2.data.len(), 100);
    assert_eq!(t2.data[0], 100);
}

#[test]
fn builder_lays_out_tensors_aligned() {
    let pack = two_tensor_pack();
    assert_eq!(pack.manifest.tensors[0].offset, 0);
    assert_eq!(pack.manifest.tensors[0].size_bytes, 100);
    // F16 data is aligned to 2 bytes, so the second tensor follows directly.
    assert_eq!(pack.manifest.tensors[1].offset, 100);
    assert_eq!(pack.weights_len(), 200);
    assert_eq!(pack.manifest.metadata.checksum, weights_checksum(&pack.weights));
    assert_eq!(pack.tensor_names(), vec!["layer1.weight", "layer2.weight"]);
}

#[test]
fn builder_without_model_fails() {
    let r = BrainPackBuilder::new().build();
    assert!(matches!(r, Err(PackError::MissingModelInfo)));
}

#[test]
fn checksum_of_empty_weights_is_sha256_of_nothing() {
    assert_eq!(
        weights_checksum(&[]),
        "sha256:e3b0c44298fc1c149afbf4c8996fb92427ae41e4649b934ca495991b7852b855"
    );
}

#[test]
fn get_tensor_reports_missing_name() {
    let pack = two_tensor_pack();
    assert!(matches!(pack.get_tensor("nope"), Err(PackError::TensorNotFound)));
}

#[test]
fn read_header_rejects_bad_input() {
    assert!(matches!(read_header(b"BRAIN"), Err(PackError::Truncated)));
    assert!(matches!(read_header(b"NOTBRAIN........."), Err(PackError::BadMagic)));
    let mut b = BRAIN_MAGIC.to_vec();
    b.extend_from_slice(&100u64.to_le_bytes());
    b.push(b'{');
    assert!(matches!(read_header(&b), Err(PackError::Truncated)));
}

#[test]
fn from_parts_detects_checksum_mismatch() {
    let pack = two_tensor_pack();
    let mut bytes = pack.encode_with_manifest(b"{}");
    let last = bytes.len() - 1;
    bytes[last] ^= 0xff;
    let r = BrainPack::from_parts(&bytes, pack.manifest.clone());
    assert!(matches!(r, Err(PackError::ChecksumMismatch)));
}

#[test]
fn shard_desc_roundtrip() {
    let d = ShardDesc {
        shard_id: 3,
        version: 1,
        byte_length: 123456,
        tensor_count: 7,
        first_tensor: 42,
        reserved: [0; 4],
    };
    let b = d.to_bytes();
    assert_eq!(&b[0..2], &[3, 0]);
    assert_eq!(&b[8..16], &123456u64.to_le_bytes());
    let d2 = ShardDesc::from_bytes(&b);
    assert_eq!(d2.shard_id, 3);
    assert_eq!(d2.byte_length, 123456);
    assert_eq!(d2.tensor_count, 7);
    assert_eq!(d2.first_tensor, 42);
}

#[test]
fn tensor_index_entry_roundtrip() {
    let t = tensor("w", vec![4, 8], DataType::F32);
    let e = TensorIndexEntry::from_tensor(&t, 17);
    assert_eq!(e.name_offset, 17);
    assert_eq!(e.name_length, 1);
    assert_eq!(e.ndim, 2);
    assert_eq!(e.shape[0], 4);
    assert_eq!(e.shape[1], 8);
    let b = e.to_bytes();
    let e2 = TensorIndexEntry::from_bytes(&b);
    assert_eq!(e2.name_offset, 17);
    assert_eq!(e2.shape, e.shape);
    assert_eq!(e2.dtype, e.dtype);
}

#[test]
fn shard_index_roundtrip_and_errors() {
    let idx = ShardIndex {
        version: 1,
        num_shards: 1,
        base_header_size: 64,
        per_shard_max: 1024,
        shards: vec![
            ShardDesc { shard_id: 0, version: 1, byte_length: 64, tensor_count: 1, first_tensor: 0, reserved: [0; 4] },
            ShardDesc { shard_id: 1, version: 1, byte_length: 512, tensor_count: 2, first_tensor: 1, reserved: [0; 4] },
        ],
        routes: vec![("embed".to_string(), 0), ("layers.0.w".to_string(), 1)],
    };
    let bytes = idx.to_bytes();
    let back = ShardIndex::from_bytes(&bytes).unwrap();
    assert_eq!(back.num_shards, 1);
    assert_eq!(back.shards.len(), 2);
    assert_eq!(back.shards[1].byte_length, 512);
    assert_eq!(back.routes, idx.routes);

    assert!(matches!(ShardIndex::from_bytes(&bytes[..5]), Err(ShardIndexError::Truncated)));
    let mut bad = bytes.clone();
    bad[0] = b'X';
    assert!(matches!(ShardIndex::from_bytes(&bad), Err(ShardIndexError::BadMagic)));
    for n in 0..bytes.len() {
        assert!(ShardIndex::from_bytes(&bytes[..n]).is_err(), "prefix of length {} accepted", n);
    }
}

#[test]
fn tensor_view_matches_get_tensor() {
    let data: Vec<u8> = (0..32).map(|i| i as u8).collect();
    let mut builder = BrainPackBuilder::new().model(model()).metadata(metadata());
    builder = builder.add_tensor(tensor("a", vec![4], DataType::F32), &data[0..16]).unwrap();
    builder = builder.add_tensor(tensor("b", vec![2, 2], DataType::F32), &data[16..32]).unwrap();
    let pack = builder.build().unwrap();
    let unrelated = [9u8; 3];
    for name in ["a", "b", "missing"] {
        let v = pack.tensor_view(name, &unrelated);
        let w = pack.get_tensor(name);
        match (v, w) {
            (Ok(v), Ok(w)) => {
                assert_eq!(v.data, w.data);
                assert_eq!(v.shape, w.shape);
                assert_eq!(v.dtype, w.dtype);
            }
            (Err(a), Err(b)) => assert_eq!(a, b),
            _ => panic!("lookups of {} disagree", name),
        }
    }
}

#[test]
fn resident_tensor_names() {
    assert!(is_resident_tensor("embed_tokens.weight"));
    assert!(!is_resident_tensor("model.embed_tokens.weight"));
    assert!(!is_resident_tensor("model.positional.bias"));
    assert!(is_resident_tensor("model.layers.0.Self_Attn.q_proj"));
    assert!(is_resident_tensor("model.norm.weight"));
    assert!(!is_resident_tensor("lm_head.weight"));
    assert!(!is_resident_tensor("model.layers.0.mlp.weight"));
}

#[test]
fn plan_routes_every_tensor() {
    let mut ts = vec![tensor("embed_tokens.weight", vec![4], DataType::F32)];
    ts[0].size_bytes = 16;
    let mut t1 = tensor("model.layers.0.mlp.weight", vec![4], DataType::F32);
    t1.size_bytes = 16;
    let mut t2 = tensor("model.layers.1.mlp.weight", vec![4], DataType::F32);
    t2.size_bytes = 16;
    t2.offset = 16;
    ts.push(t1);
    ts.push(t2);
    let plan = plan_shards(&ts).unwrap();
    assert_eq!(plan.shard_tensors.len(), NUM_SHARDS as usize + 1);
    assert_eq!(plan.shard_tensors[0], vec![0]);
    assert_eq!(plan.routes.len(), 3);
    let route = |n: &str| plan.routes.iter().find(|r| r.0 == n).map(|r| r.1);
    assert_eq!(route("embed_tokens.weight"), Some(0));
    assert!(route("model.layers.0.mlp.weight").unwrap() >= 1);
    assert!(route("model.layers.1.mlp.weight").unwrap() >= 1);

    let lens = vec![0u64; NUM_SHARDS as usize];
    let index = assemble_shard_index(plan, 64, &lens);
    assert_eq!(index.num_shards, NUM_SHARDS);
    assert_eq!(index.shards.len(), NUM_SHARDS as usize + 1);
    assert_eq!(index.base_header_size, 64);
}

#[test]
fn stream_shard_encodes_and_locates() {
    let data: Vec<u8> = (0..48).map(|i| i as u8).collect();
    let mut builder = BrainPackBuilder::new().model(model()).metadata(metadata());
    builder = builder
        .add_tensor(tensor("embed_tokens.weight", vec![4], DataType::F32), &data[0..16])
        .unwrap();
    builder = builder
        .add_tensor(tensor("model.layers.0.mlp.weight", vec![4], DataType::F32), &data[16..32])
        .unwrap();
    builder = builder
        .add_tensor(tensor("model.layers.1.mlp.weight", vec![4], DataType::F32), &data[32..48])
        .unwrap();
    let pack = builder.build().unwrap();
    let owned = vec![1usize, 2];
    let shard = pack.encode_stream_shard(&owned).unwrap();
    assert_eq!(&shard[0..8], &2u64.to_le_bytes());

    let names: Vec<String> = pack.manifest.tensors.iter().map(|t| t.name.clone()).collect();
    let loc = locate_in_stream_shard(&shard, &names, "model.layers.1.mlp.weight", 5)
        .unwrap();
    assert_eq!(loc.shard_id, 5);
    assert_eq!(loc.size_bytes, 16);
    let start = loc.file_offset as usize;
    assert_eq!(&shard[start..start + 16], &data[32..48]);
    assert!(locate_in_stream_shard(&shard, &names, "embed_tokens.weight", 5).is_none());

    let base = pack.base_fragment(&vec![0]).unwrap();
    assert_eq!(base.manifest.tensors.len(), 1);
    assert_eq!(base.get_tensor("embed_tokens.weight").unwrap().data, &data[0..16]);

    let sharded = ShardedModel {
        index: ShardIndex {
            version: 1,
            num_shards: 1,
            base_header_size: 0,
            per_shard_max: 1024,
            shards: vec![],
            routes: vec![("embed_tokens.weight".to_string(), 0), ("model.layers.0.mlp.weight".to_string(), 1)],
        },
        base,
        shard_paths: vec!["m.00.brain".to_string(), "m.01.brain".to_string()],
        tensor_names: names.clone(),
    };
    assert_eq!(sharded.route_of("model.layers.0.mlp.weight"), Some(1));
    assert_eq!(sharded.route_of("missing"), None);
    assert_eq!(sharded.resident_tensor_names(), vec!["embed_tokens.weight"]);
    let loc0 = sharded.locate_resident("embed_tokens.weight").unwrap();
    assert_eq!(loc0.shard_id, 0);
    assert_eq!(loc0.size_bytes, 16);
}

#[test]
fn layer_numbers_in_names() {
    assert_eq!(extract_layer_index("model.layers.12.mlp.weight"), Some(12));
    assert_eq!(extract_layer_index("h.+3.attn"), Some(3));
    assert_eq!(extract_layer_index("embed_tokens.weight"), None);
    assert_eq!(extract_layer_index("x.99999999999.y"), None);
    assert_eq!(extract_layer_index("7"), Some(7));
}

fn st_info(dtype: &str, shape: Vec<u64>, begin: u64, end: u64) -> SafetensorsTensorInfo {
    SafetensorsTensorInfo { dtype: dtype.to_string(), shape, data_offsets: [begin, end] }
}

#[test]
fn count_distinct_layers() {
    let es = vec![
        ("model.layers.0.q_proj".to_string(), st_info("F32", vec![8, 8], 0, 0)),
        ("model.layers.0.k_proj".to_string(), st_info("F32", vec![8, 8], 0, 0)),
        ("model.layers.1.q_proj".to_string(), st_info("F32", vec![8, 8], 0, 0)),
        ("lm_head".to_string(), st_info("F32", vec![8, 8], 0, 0)),
    ];
    assert_eq!(count_layers(&es), 2);
    assert_eq!(infer_hidden_size(&es), 8);
    assert_eq!(infer_num_heads(&es), 0);
}

#[test]
fn safetensors_framing_and_data() {
    let json = br#"{"test":{"dtype":"I32","shape":[2],"data_offsets":[0,8]}}"#;
    let mut bytes = (json.len() as u64).to_le_bytes().to_vec();
    bytes.extend_from_slice(json);
    while bytes.len() % 8 != 0 {
        bytes.push(b' ');
    }
    let data_start = bytes.len();
    bytes.extend_from_slice(&7i32.to_le_bytes());
    bytes.extend_from_slice(&(-2i32).to_le_bytes());

    let (hlen, start) = header_bounds(&bytes).unwrap();
    assert_eq!(hlen, json.len());
    assert_eq!(start, data_start);

    let reader = SafetensorsReader {
        header: SafetensorsHeader {
            tensors: vec![("test".to_string(), st_info("I32", vec![2], 0, 8))],
            metadata: None,
        },
        data_start: start,
        data_end: bytes.len(),
    };
    assert_eq!(reader.header().tensors[0].1.shape, vec![2]);
    assert_eq!(reader.tensor_data(&bytes, "test").unwrap().len(), 8);
    assert_eq!(reader.tensor_data_i32(&bytes, "test").unwrap(), vec![7, -2]);
    assert_eq!(reader.tensor_data_i64(&bytes, "test").unwrap(), vec![7, -2]);
    assert_eq!(reader.tensor_shape("test"), Some(vec![2]));
    assert_eq!(reader.tensor_dtype("test"), Some(SafetensorsDtype::I32));
    assert!(matches!(reader.tensor_data(&bytes, "other"), Err(SafetensorsError::TensorNotFound)));

    assert!(matches!(header_bounds(&[1, 2, 3]), Err(SafetensorsError::FileTooSmall)));
    assert!(matches!(header_bounds(&100u64.to_le_bytes()), Err(SafetensorsError::HeaderTruncated)));
}

#[test]
fn safetensors_conversion() {
    let info = st_info("F16", vec![2, 3], 0, 12);
    let t = tensor_info_to_brain("w", &info, 64, None).unwrap();
    assert_eq!(t.dtype, DataType::F16);
    assert_eq!(t.offset, 64);
    assert_eq!(t.size_bytes, 12);
    assert!(tensor_info_to_brain("w", &st_info("XYZ", vec![1], 0, 1), 0, None).is_err());

    let header = SafetensorsHeader {
        tensors: vec![
            ("embed_tokens".to_string(), st_info("F16", vec![100, 8], 0, 0)),
            ("layers.0.attn.q_proj".to_string(), st_info("F16", vec![8, 8], 0, 0)),
            ("layers.0.mlp.up".to_string(), st_info("F16", vec![8, 16], 0, 0)),
        ],
        metadata: Some(vec![("model_name".to_string(), "tiny".to_string())]),
    };
    let m = build_model_info(&header);
    assert_eq!(m.name, "tiny");
    assert_eq!(m.architecture, "llama");
    assert_eq!(m.parameter_count, 800 + 64 + 128);
    assert_eq!(m.vocab_size, 100);
    assert_eq!(m.context_length, 4096);
    assert_eq!(m.quantization, "none");
}

#[test]
fn test_download_config_default() {
    let config = DownloadConfig::default();
    assert_eq!(config.revision, "main");
    assert_eq!(config.max_concurrent_chunks, MAX_CONCURRENT_CHUNKS);
    assert_eq!(config.chunk_size, CHUNK_SIZE);
    assert!(config.wants_file("model.safetensors"));
}

#[test]
fn download_chunks_cover_file() {
    assert_eq!(chunk_ranges(10, 4), vec![(0, 4), (4, 8), (8, 10)]);
    assert_eq!(chunk_ranges(3, 100), vec![(0, 3)]);
    let mut c = DownloadConfig::default();
    c.files = vec!["config.json".to_string()];
    assert!(c.wants_file("config.json"));
    assert!(!c.wants_file("model.safetensors"));
}

#[test]
fn q4k_block_sizes() {
    assert_eq!(Q4KBlock::SIZE, 256);
    assert_eq!(Q4KBlock::ELEMENTS, 256);
}

#[test]
fn tensor_view_elements() {
    let pack = two_tensor_pack();
    let v = pack.tensor_view("layer1.weight", &[]).unwrap();
    assert_eq!(v.num_elements(), 100);
    assert_eq!(pack.model_info().name, "test-model");
}

#[test]
fn download_chunks_tile_the_file() {
    let total = 1_000_003u64;
    let r = chunk_ranges(total, 65536);
    assert_eq!(r[0].0, 0);
    assert_eq!(r.last().unwrap().1, total);
    for w in r.windows(2) {
        assert_eq!(w[0].1, w[1].0);
        assert!(w[0].0 < w[0].1);
    }
}

#[test]
fn manifest_only_after_checks() {
    let pack = two_tensor_pack();
    let bytes = pack.encode_with_manifest(b"{}");
    let m = BrainPack::manifest_from_bytes(&bytes, pack.manifest.clone()).unwrap();
    assert_eq!(m.tensors.len(), 2);
    let mut bad = bytes.clone();
    let last = bad.len() - 1;
    bad[last] ^= 1;
    assert!(matches!(BrainPack::manifest_from_bytes(&bad, pack.manifest.clone()), Err(PackError::ChecksumMismatch)));
    let mut short = bytes[..20].to_vec();
    short[8..16].copy_from_slice(&2u64.to_le_bytes());
    assert!(matches!(BrainPack::manifest_from_bytes(&short, pack.manifest.clone()), Err(PackError::Truncated)));
    let mut magic = bytes.clone();
    magic[0] = b'X';
    assert!(matches!(BrainPack::manifest_from_bytes(&magic, pack.manifest.clone()), Err(PackError::BadMagic)));
    assert!(matches!(BrainPack::read_parts(&magic, pack.manifest.clone()), Err(PackError::BadMagic)));
    assert!(matches!(BrainPack::manifest_from_bytes(&bytes[..4], pack.manifest.clone()), Err(PackError::Truncated)));
    let whole = BrainPack::read_parts(&bytes, pack.manifest.clone()).unwrap();
    assert_eq!(whole.weights, pack.weights);
}

#[test]
fn token_embeddings_stay_resident() {
    assert!(is_resident_tensor("token_emb.weight"));
    assert!(is_resident_tensor("TOKEN_EMB"));
    assert!(!is_resident_tensor("xtoken_em"));
    let mut t = tensor("token_emb.weight", vec![4], DataType::F16);
    t.size_bytes = 8;
    let plan = plan_shards(&vec![t]).unwrap();
    assert_eq!(plan.shard_tensors[0], vec![0]);
    assert!(plan.shard_tensors[1].is_empty());
    assert_eq!(plan.routes, vec![("token_emb.weight".to_string(), 0u16)]);
}

#[test]
fn oversized_layouts_are_refused() {
    let gib2 = 2u64 * 1024 * 1024 * 1024;
    // A single streaming tensor larger than the shard cap.
    let mut big = tensor("layers.0.mlp", vec![4], DataType::F32);
    big.size_bytes = gib2 + 1;
    assert_eq!(plan_shards(&vec![big]).err(), Some(PackError::LayoutTooLarge));
    // Sixteen full shards' worth of streaming tensors.
    let mut ts = Vec::new();
    for i in 0..16u64 {
        let mut t = tensor(&format!("layers.{}.mlp", i), vec![4], DataType::F32);
        t.size_bytes = gib2;
        t.offset = i * gib2;
        ts.push(t);
    }
    assert_eq!(plan_shards(&ts).err(), Some(PackError::LayoutTooLarge));
    // Fifteen fit exactly, one per shard.
    ts.pop();
    let plan = plan_shards(&ts).unwrap();
    for s in 1..=15usize {
        assert_eq!(plan.shard_tensors[s], vec![s - 1]);
    }
}

#[test]
fn sharded_model_locates_streaming_tensors() {
    let data: Vec<u8> = (0..48).map(|i| i as u8).collect();
    let mut builder = BrainPackBuilder::new().model(model()).metadata(metadata());
    builder = builder.add_tensor(tensor("token_emb.weight", vec![4], DataType::F32), &data[0..16]).unwrap();
    builder = builder.add_tensor(tensor("layers.0.mlp.weight", vec![4], DataType::F32), &data[16..32]).unwrap();
    builder = builder.add_tensor(tensor("layers.1.mlp.weight", vec![4], DataType::F32), &data[32..48]).unwrap();
    let pack = builder.build().unwrap();
    let plan = plan_shards(&pack.manifest.tensors).unwrap();
    assert_eq!(plan.shard_tensors[0], vec![0]);
    assert_eq!(plan.shard_tensors[1], vec![1, 2]);
    let shard1 = pack.encode_stream_shard(&plan.shard_tensors[1]).unwrap();
    let base = pack.base_fragment(&plan.shard_tensors[0]).unwrap();
    let lens = vec![shard1.len() as u64; NUM_SHARDS as usize];
    let index = assemble_shard_index(plan, 64, &lens);
    let names: Vec<String> = pack.manifest.tensors.iter().map(|t| t.name.clone()).collect();
    let paths: Vec<String> = (0..=NUM_SHARDS).map(|s| format!("m.{:02}.brain", s)).collect();
    assert_eq!(route_names(&index), names);
    let model = ShardedModel { index, base, shard_paths: paths, tensor_names: names };
    for (name, range) in [("layers.0.mlp.weight", 16..32), ("layers.1.mlp.weight", 32..48)] {
        let loc = model.locate(name, &shard1).unwrap();
        assert_eq!(loc.shard_id, 1);
        assert_eq!(loc.size_bytes, 16);
        let at = loc.file_offset as usize;
        assert_eq!(&shard1[at..at + 16], &data[range]);
    }
    let loc0 = model.locate("token_emb.weight", &[]).unwrap();
    assert_eq!(loc0.shard_id, 0);
    assert!(model.locate("missing", &shard1).is_none());
}

#[test]
fn packed_offsets_follow_header_order() {
    let header = SafetensorsHeader {
        tensors: vec![
            ("a".to_string(), st_info("F32", vec![2, 3], 0, 24)),
            ("b".to_string(), st_info("F16", vec![5], 24, 34)),
            ("c".to_string(), st_info("I64", vec![], 34, 42)),
            ("d".to_string(), st_info("U8", vec![7], 42, 49)),
        ],
        metadata: None,
    };
    assert_eq!(packed_offsets(&header), vec![0, 24, 34, 42]);
}

fn f32_test_file() -> (Vec<u8>, SafetensorsReader) {
    let json = br#"{"test":{"dtype":"F32","shape":[2,3],"data_offsets":[0,24]}}"#;
    let mut bytes = (json.len() as u64).to_le_bytes().to_vec();
    bytes.extend_from_slice(json);
    while bytes.len() % 8 != 0 {
        bytes.push(b' ');
    }
    for v in [1.0f32, 2.0, 3.0, 4.0, 5.0, 6.0] {
        bytes.extend_from_slice(&v.to_le_bytes());
    }
    let (_, start) = header_bounds(&bytes).unwrap();
    let reader = SafetensorsReader {
        header: SafetensorsHeader {
            tensors: vec![("test".to_string(), st_info("F32", vec![2, 3], 0, 24))],
            metadata: None,
        },
        data_start: start,
        data_end: bytes.len(),
    };
    (bytes, reader)
}

#[test]
fn test_parse_header() {
    let (_, reader) = f32_test_file();
    let header = reader.header();
    let info = &header.tensors.iter().find(|(n, _)| n == "test").unwrap().1;
    assert_eq!(info.dtype, "F32");
    assert_eq!(info.shape, vec![2, 3]);
    assert_eq!(info.data_offsets, [0, 24]);
}

#[test]
fn test_tensor_data() {
    let (bytes, reader) = f32_test_file();
    let data = reader.tensor_data(&bytes, "test").unwrap();
    assert_eq!(data.len(), 24);
    let typed: Vec<f32> = data.chunks(4).map(|c| f32::from_le_bytes([c[0], c[1], c[2], c[3]])).collect();
    assert_eq!(typed, vec![1.0, 2.0, 3.0, 4.0, 5.0, 6.0]);
}

#[test]
fn eight_bit_float_widths() {
    assert_eq!(SafetensorsDtype::F8E4M3.size_bytes(), 1);
    assert_eq!(SafetensorsDtype::F8E5M2.size_bytes(), 1);
    assert_eq!(SafetensorsDtype::F8E4M3.alignment(), 1);
    assert_eq!(SafetensorsDtype::F64.size_bytes(), 8);
    assert_eq!(SafetensorsDtype::BF16.size_bytes(), 2);
    assert_eq!(SafetensorsDtype::Bool.size_bytes(), 1);
}
