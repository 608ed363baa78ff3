use decoupled_ai::server::config::{ServerBuilder, ServerConfig};
use decoupled_ai::server::gpu::{
    auto_select_gpu, choose_gpu, gpu_selection, detect_vendor_from_name, detection_result, gpu_preference_score,
    no_gpu_result, parse_preferred_backend, rank_gpus, selection_candidates, should_prompt,
    GpuBackend, GpuInfo, GpuVendor, SelectionMethod,
};
use decoupled_ai::server::updater::{
    evaluate_release, find_platform_asset, platform_asset_suffix, tag_version, update_info_for,
    GitHubRelease, ReleaseAsset, UpdateError,
};

fn gpu(index: usize, name: &str, vendor: GpuVendor, backend: GpuBackend, vram_mb: Option<u64>, is_integrated: bool) -> GpuInfo {
    GpuInfo {
        index,
        name: name.to_string(),
        vendor,
        backend,
        vram_mb,
        driver_version: None,
        compute_capability: None,
        is_integrated,
        pci_id: None,
    }
}

#[test]
fn test_gpu_preference_score() {
    let nvidia_discrete = gpu(0, "RTX 3080", GpuVendor::Nvidia, GpuBackend::Cuda, Some(10240), false);
    let intel_integrated = gpu(1, "UHD Graphics 630", GpuVendor::Intel, GpuBackend::OpenCl, None, true);
    assert!(gpu_preference_score(&nvidia_discrete) > gpu_preference_score(&intel_integrated));
}

#[test]
fn preference_score_values() {
    let nvidia_discrete = gpu(0, "RTX 3080", GpuVendor::Nvidia, GpuBackend::Cuda, Some(10240), false);
    assert_eq!(gpu_preference_score(&nvidia_discrete), 1000 + 500 + 10 + 200);
    let big = gpu(0, "H100", GpuVendor::Nvidia, GpuBackend::Cuda, Some(1_000_000), false);
    assert_eq!(gpu_preference_score(&big), 1000 + 500 + 100 + 200);
    let intel_integrated = gpu(1, "UHD Graphics 630", GpuVendor::Intel, GpuBackend::OpenCl, None, true);
    assert_eq!(gpu_preference_score(&intel_integrated), 650);
}

#[test]
fn test_vendor_detection() {
    assert_eq!(detect_vendor_from_name("NVIDIA GeForce RTX 3080"), GpuVendor::Nvidia);
    assert_eq!(detect_vendor_from_name("AMD Radeon RX 6800"), GpuVendor::Amd);
    assert_eq!(detect_vendor_from_name("Intel UHD Graphics 630"), GpuVendor::Intel);
    assert_eq!(detect_vendor_from_name("Apple M1 Pro"), GpuVendor::Apple);
    assert_eq!(detect_vendor_from_name("Unknown GPU"), GpuVendor::Unknown);
}

#[test]
fn ranking_orders_and_renumbers() {
    let gpus = vec![
        gpu(0, "UHD Graphics 630", GpuVendor::Intel, GpuBackend::OpenCl, None, true),
        gpu(1, "RX 6800", GpuVendor::Amd, GpuBackend::Rocm, Some(16384), false),
        gpu(2, "RTX 3080", GpuVendor::Nvidia, GpuBackend::Cuda, Some(10240), false),
    ];
    let ranked = rank_gpus(gpus);
    assert_eq!(ranked[0].name, "RTX 3080");
    assert_eq!(ranked[1].name, "RX 6800");
    assert_eq!(ranked[2].name, "UHD Graphics 630");
    for (i, g) in ranked.iter().enumerate() {
        assert_eq!(g.index, i);
    }
    let best = auto_select_gpu(&ranked).unwrap();
    assert_eq!(best.name, "RTX 3080");
    assert!(auto_select_gpu(&[]).is_none());
}

#[test]
fn ranking_is_stable_for_ties() {
    let gpus = vec![
        gpu(0, "first", GpuVendor::Amd, GpuBackend::Rocm, None, false),
        gpu(1, "second", GpuVendor::Amd, GpuBackend::Rocm, None, false),
    ];
    let ranked = rank_gpus(gpus);
    assert_eq!(ranked[0].name, "first");
    assert_eq!(ranked[1].name, "second");
}

#[test]
fn selection_by_preference() {
    let gpus = rank_gpus(vec![
        gpu(0, "RTX 3080", GpuVendor::Nvidia, GpuBackend::Cuda, Some(10240), false),
        gpu(1, "RX 6800", GpuVendor::Amd, GpuBackend::Rocm, Some(16384), false),
    ]);
    assert_eq!(parse_preferred_backend("ROCm"), Some(GpuBackend::Rocm));
    assert_eq!(parse_preferred_backend("vulkan"), None);

    let cands = selection_candidates(&gpus, Some("rocm"));
    assert_eq!(cands.len(), 1);
    assert_eq!(cands[0].name, "RX 6800");
    let (sel, how) = choose_gpu(&gpus, &cands);
    assert_eq!(sel.unwrap().name, "RX 6800");
    assert_eq!(how, SelectionMethod::AutoSingle);

    let all = selection_candidates(&gpus, None);
    assert_eq!(all.len(), 2);
    assert!(should_prompt(true, &all));
    assert!(!should_prompt(false, &all));
    let (sel, how) = choose_gpu(&gpus, &all);
    assert_eq!(sel.as_ref().unwrap().name, "RTX 3080");
    assert_eq!(how, SelectionMethod::AutoBest);

    let res = detection_result(gpus, sel, how);
    assert_eq!(res.backend, GpuBackend::Cuda);
    let none = no_gpu_result();
    assert_eq!(none.backend, GpuBackend::Cpu);
    assert!(none.selected_gpu.is_none());
}

#[test]
fn vendor_and_backend_names() {
    assert_eq!(GpuVendor::Nvidia.as_str(), "NVIDIA");
    assert_eq!(GpuBackend::Cuda.as_str(), "CUDA");
}

#[test]
fn test_platform_suffix() {
    assert_eq!(platform_asset_suffix("windows"), ".msi");
    assert_eq!(platform_asset_suffix("linux"), ".deb");
    assert_eq!(platform_asset_suffix("macos"), ".tar.gz");
    assert_eq!(platform_asset_suffix("plan9"), "");
}

fn release(tag: &str) -> GitHubRelease {
    GitHubRelease {
        tag_name: tag.to_string(),
        name: "Release".to_string(),
        body: Some("notes".to_string()),
        draft: false,
        prerelease: false,
        assets: vec![
            ReleaseAsset {
                name: "app.tar.gz".to_string(),
                browser_download_url: "https://example.invalid/app.tar.gz".to_string(),
                size: 10,
                content_type: "application/gzip".to_string(),
            },
            ReleaseAsset {
                name: "app.deb".to_string(),
                browser_download_url: "https://example.invalid/app.deb".to_string(),
                size: 20,
                content_type: "application/vnd.debian.binary-package".to_string(),
            },
        ],
        published_at: "2024-01-01T00:00:00Z".to_string(),
    }
}

#[test]
fn test_version_parsing() {
    let newer = evaluate_release("1.0.0", &release("v1.0.1"), ".deb").unwrap();
    assert!(newer.update_available);
    let newer = evaluate_release("1.0.1", &release("2.0.0"), ".deb").unwrap();
    assert!(newer.update_available);
    let older = evaluate_release("1.0.0", &release("v1.0.0-alpha"), ".deb").unwrap();
    assert!(!older.update_available);
}

#[test]
fn update_check_details() {
    let info = evaluate_release("0.9.0", &release("vv1.2.3"), ".deb").unwrap();
    assert_eq!(info.latest_version, "1.2.3");
    assert_eq!(info.current_version, "0.9.0");
    assert_eq!(info.asset_name.as_deref(), Some("app.deb"));
    assert_eq!(info.asset_size, Some(20));
    assert_eq!(info.release_notes.as_deref(), Some("notes"));

    assert!(matches!(evaluate_release("0.9.0", &release("latest"), ".deb"), Err(UpdateError::BadVersion)));
    assert!(matches!(evaluate_release("garbage", &release("v1.0.0"), ".deb"), Err(UpdateError::BadVersion)));

    assert_eq!(tag_version("v2.0.0"), "2.0.0");
    let r = release("v1.0.0");
    assert_eq!(find_platform_asset(&r.assets, ".tar.gz"), Some(0));
    assert_eq!(find_platform_asset(&r.assets, ".msi"), None);
    let info = update_info_for("1.0.0", "1.0.0".to_string(), false, &r, ".msi");
    assert!(info.download_url.is_none());
    assert!(!info.update_available);
}

#[test]
fn server_builder_sets_fields() {
    let b = ServerBuilder::new().port(0).backend("cpu".to_string()).api_key("k".to_string()).cors(false);
    assert_eq!(b.config.port, 0);
    assert_eq!(b.config.backend, "cpu");
    assert_eq!(b.config.api_key.as_deref(), Some("k"));
    assert!(!b.config.enable_cors);
    let d = ServerConfig::default();
    assert_eq!(d.host, "127.0.0.1");
    assert_eq!(d.port, 8080);
}

#[test]
fn selection_put_together() {
    let gpus = vec![
        gpu(0, "RTX 3080", GpuVendor::Nvidia, GpuBackend::Cuda, Some(10240), false),
        gpu(1, "RX 6800", GpuVendor::Amd, GpuBackend::Rocm, Some(16384), false),
        gpu(2, "RTX 3060", GpuVendor::Nvidia, GpuBackend::Cuda, Some(12288), false),
    ];
    let none = gpu_selection(vec![], None, true, Some(0));
    assert!(none.selected_gpu.is_none());
    assert_eq!(none.backend, GpuBackend::Cpu);

    let r = gpu_selection(gpus.clone(), Some("rocm"), true, Some(0));
    assert_eq!(r.selection_method, SelectionMethod::AutoSingle);
    assert_eq!(r.selected_gpu.unwrap().name, "RX 6800");
    assert_eq!(r.backend, GpuBackend::Rocm);

    let r = gpu_selection(gpus.clone(), Some("cuda"), true, Some(1));
    assert_eq!(r.selection_method, SelectionMethod::ManualPrompt);
    assert_eq!(r.selected_gpu.unwrap().name, "RTX 3060");

    let r = gpu_selection(gpus.clone(), Some("cuda"), true, None);
    assert_eq!(r.selection_method, SelectionMethod::ManualPrompt);
    assert!(r.selected_gpu.is_none());
    assert_eq!(r.backend, GpuBackend::Cpu);

    let r = gpu_selection(gpus.clone(), None, false, None);
    assert_eq!(r.selection_method, SelectionMethod::AutoBest);
    assert_eq!(r.selected_gpu.unwrap().name, "RTX 3080");
    assert_eq!(r.gpus.len(), 3);
}
