use decoupled_ai::assets::FrontendAssets;
use decoupled_ai::brain_pack::format::DataType;
use decoupled_ai::brain_pack::pack::{BrainPackBuilder, PackError};
use decoupled_ai::brain_pack::format::{Metadata, ModelInfo};
use decoupled_ai::compute::SimdLevel;
use decoupled_ai::docs::{extract_name, parse_public_item, ItemKind};
use decoupled_ai::mem::{
    to_wide_string, HugePageSize, MappedBrain, SharedMappedBrain, TensorView, WindowsMemoryOps,
};
use decoupled_ai::openai::{
    chunk_finish_reason, detokenize, embedding_inputs, embedding_usage, generation_usage,
    messages_to_prompt, prompt_tokens, token_text, tokenize, tokenize_many, ChatDelta, ChatMessage,
    CompletionPrompt, EmbeddingInput,
};

#[test]
fn to_wide_string_terminates_with_nul() {
    let v = to_wide_string("abc");
    assert_eq!(v, vec![b'a' as u16, b'b' as u16, b'c' as u16, 0]);
}

#[test]
fn wide_string_uses_surrogate_pairs() {
    let s = "é😀";
    let expected: Vec<u16> = s.encode_utf16().chain(std::iter::once(0)).collect();
    assert_eq!(to_wide_string(s), expected);
    assert_eq!(to_wide_string(""), vec![0]);
}

fn view<'a>(data: &'a [u8], shape: Vec<u64>, strides: Vec<u64>) -> TensorView<'a> {
    TensorView { name: "t".to_string(), data, shape, dtype: DataType::F32, quantization: None, strides }
}

#[test]
fn mapped_view_shape_and_strides() {
    let data = [0u8; 16];
    let v = view(&data, vec![1, 1], vec![1, 1]);
    assert_eq!(v.num_elements(), 1);
    assert_eq!(v.size_bytes(), 16);
    assert!(v.is_contiguous());
    let w = view(&data, vec![1, 1], vec![2, 1]);
    assert!(!w.is_contiguous());
    assert_eq!(view(&data, vec![2, 3, 4], vec![]).num_elements(), 24);
}

#[test]
fn huge_page_flags() {
    assert_eq!(HugePageSize::Size2MB.flag(), 0x40000);
    assert_eq!(HugePageSize::Size1GB.flag(), 0x80000);
}

fn small_pack() -> decoupled_ai::brain_pack::pack::BrainPack {
    BrainPackBuilder::new()
        .model(ModelInfo {
            name: "m".to_string(),
            architecture: "a".to_string(),
            parameter_count: 1,
            quantization: "none".to_string(),
            context_length: 1,
            vocab_size: 1,
        })
        .metadata(Metadata {
            created_epoch: 0,
            created_by: "t".to_string(),
            checksum: String::new(),
            license: "l".to_string(),
            description: "d".to_string(),
        })
        .build()
        .unwrap()
}

#[test]
fn shared_region_receives_container() {
    let pack = small_pack();
    let encoded = pack.encode_with_manifest(b"{}");
    let mut region = SharedMappedBrain::new("/region".to_string(), encoded.len() + 8);
    assert_eq!(region.size(), encoded.len() + 8);
    region.write_brain(&pack, b"{}").unwrap();
    assert_eq!(&region.as_slice()[..encoded.len()], &encoded[..]);
    assert_eq!(&region.as_slice()[encoded.len()..], &[0u8; 8]);

    let mut tiny = SharedMappedBrain::new("/tiny".to_string(), 4);
    assert!(matches!(tiny.write_brain(&pack, b"{}"), Err(PackError::RegionTooSmall)));
    assert_eq!(tiny.as_slice(), &[0u8; 4]);
}

#[test]
fn memory_ops_report_the_pack() {
    let m = MappedBrain { pack: small_pack(), file_size: 4096 };
    assert_eq!(m.mapped_view_size(), 4096);
    assert!(m.tensors().is_empty());
    assert_eq!(m.weights_byte_len(), 0);
}

#[test]
fn tokens_are_character_codes() {
    assert_eq!(tokenize("Hi"), vec![72, 105]);
    assert_eq!(tokenize_many(&vec!["a".to_string(), "b".to_string()]), vec![97, 98]);
    assert_eq!(detokenize(&vec![72, 105, -1, 0xD800]), "Hi??");
    assert_eq!(token_text(0x1F600), "😀");
}

fn msg(role: &str, content: Option<&str>) -> ChatMessage {
    ChatMessage {
        role: role.to_string(),
        content: content.map(|c| c.to_string()),
        name: None,
        tool_calls: None,
        tool_call_id: None,
    }
}

#[test]
fn chat_prompt_layout() {
    let msgs = vec![msg("system", Some("Be brief.")), msg("user", Some("Hello")), msg("tool", Some("x")), msg("user", None)];
    let expected = tokenize("System: Be brief.\nUser: Hello\nx\nAssistant: ");
    assert_eq!(messages_to_prompt(&msgs), expected);
}

#[test]
fn completion_prompts_and_embeddings() {
    assert_eq!(prompt_tokens(CompletionPrompt::Text("ab".to_string())), vec![97, 98]);
    assert_eq!(prompt_tokens(CompletionPrompt::Tokens(vec![5, 6])), vec![5, 6]);
    assert_eq!(prompt_tokens(CompletionPrompt::TokensArray(vec![vec![1], vec![2, 3]])), vec![1, 2, 3]);

    let inputs = embedding_inputs(EmbeddingInput::Tokens(vec![12, -7]));
    assert_eq!(inputs, vec!["12".to_string(), "-7".to_string()]);
    let u = embedding_usage(&inputs);
    assert_eq!(u.prompt_tokens, 4);
    assert_eq!(u.total_tokens, 4);
    assert_eq!(u.completion_tokens, 0);

    let g = generation_usage(5);
    assert_eq!((g.prompt_tokens, g.completion_tokens, g.total_tokens), (5, 5, 10));
    assert_eq!(chunk_finish_reason("stop".to_string()), None);
    assert_eq!(chunk_finish_reason("length".to_string()), Some("length".to_string()));
    let d = ChatDelta::default();
    assert!(d.role.is_none() && d.content.is_none() && d.tool_calls.is_none());
}

#[test]
fn test_extract_name() {
    assert_eq!(extract_name("struct Foo"), "Foo");
    assert_eq!(extract_name("fn bar()"), "bar");
    assert_eq!(extract_name("const BAZ: i32"), "BAZ");
    assert_eq!(extract_name("enum Opt<T>"), "Opt");
    assert_eq!(extract_name("single"), "unknown");
}

#[test]
fn public_items_from_lines() {
    let item = parse_public_item("pub fn run(x: u32)", "Safety: none", "lib.rs").unwrap();
    assert_eq!(item.kind, ItemKind::Function);
    assert_eq!(item.name, "run");
    assert_eq!(item.signature, "fn run(x: u32)");
    assert_eq!(item.safety_notes, vec!["Contains unsafe code - review safety invariants".to_string()]);
    let s = parse_public_item("pub struct Point {", "", "geo.rs").unwrap();
    assert_eq!(s.kind, ItemKind::Struct);
    assert_eq!(s.name, "Point");
    assert!(s.safety_notes.is_empty());
    assert!(parse_public_item("pub mod inner;", "", "lib.rs").is_none());
}

#[test]
fn frontend_assets_by_path() {
    let assets = FrontendAssets::new(b"css".to_vec(), b"js".to_vec(), b"chart".to_vec(), b"font".to_vec());
    assert_eq!(assets.get("style.css"), Some(&b"css"[..]));
    assert_eq!(assets.get("inter-var.woff2"), Some(&b"font"[..]));
    assert_eq!(assets.get("index.html"), None);
}

#[test]
fn simd_levels() {
    assert_eq!(SimdLevel::Scalar.name(), "scalar");
    assert_eq!(SimdLevel::Avx512.vector_width(), 32);
    assert_eq!(SimdLevel::Neon.vector_width(), 8);
}

use decoupled_ai::docs::{audit_counts, module_doc, parse_module_lines, CrateDoc};

fn src_lines(text: &str) -> Vec<String> {
    text.lines().map(|l| l.to_string()).collect()
}

#[test]
fn module_items_take_their_doc_comments() {
    let text = "//! Module docs\n\n/// Adds.\n/// Safety: none needed\npub fn add(a: u32) -> u32 {\n    a\n}\n\n/// Lost to code\nlet x = 1;\npub struct Plain;\n// plain comment\n/// Tail doc\n";
    let (items, rest) = parse_module_lines(&src_lines(text), "m.rs");
    assert_eq!(items.len(), 2);
    assert_eq!(items[0].name, "add");
    assert_eq!(items[0].doc, "Module docs\nAdds.\nSafety: none needed\n");
    assert_eq!(items[0].safety_notes.len(), 1);
    assert_eq!(items[1].name, "Plain;");
    assert_eq!(items[1].doc, "");
    assert_eq!(rest, "Tail doc\n");
    let m = module_doc("src/m.rs".to_string(), "m".to_string(), &src_lines(text));
    assert_eq!(m.items.len(), 2);
    assert_eq!(m.items[0].module, "src/m.rs");
}

#[test]
fn audit_counts_items_and_notes() {
    let (items, _) = parse_module_lines(&src_lines("pub fn a() {}\n/// Safety: fine\npub fn b() {}\n/// unsafe inside\npub struct C;\n"), "x.rs");
    let mut undocumented = items[0].clone();
    undocumented.safety_notes.push("note".to_string());
    let krate = CrateDoc {
        name: "k".to_string(),
        path: ".".to_string(),
        description: String::new(),
        version: "0.1.0".to_string(),
        dependencies: vec![],
        features: vec![],
        public_items: vec![items[0].clone(), items[1].clone(), items[2].clone(), undocumented],
    };
    let c = audit_counts(&vec![krate]);
    assert_eq!(c.total_items, 4);
    assert_eq!(c.missing_docs, 2);
    assert_eq!(c.unsafe_blocks, 3);
    assert_eq!(c.undocumented_unsafe, 1);
}

#[test]
fn detokenize_undoes_tokenize() {
    for s in ["", "plain", "naïve café", "emoji 😀 ok", "\u{10FFFF}\u{E000}"] {
        assert_eq!(detokenize(&tokenize(s)), s);
    }
}

#[test]
fn dashboard_pages() {
    assert!(FrontendAssets::index_html().starts_with("<!DOCTYPE html>"));
    assert!(FrontendAssets::index_html().contains("DeCoupled-AI Dashboard"));
    assert!(FrontendAssets::chat_html().starts_with("<div class=\"chat-page\">"));
    assert!(FrontendAssets::models_html().starts_with("<div class=\"models-page\">"));
    for page in [
        FrontendAssets::settings_html(),
        FrontendAssets::download_html(),
        FrontendAssets::speculative_html(),
    ] {
        assert!(page.starts_with("<div"));
    }
}
