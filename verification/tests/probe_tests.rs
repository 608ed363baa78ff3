use decoupled_ai::server::gpu::{GpuBackend, GpuVendor};
use decoupled_ai::server::probe::{
    parse_clinfo, parse_lspci, parse_nvidia_line, parse_nvidia_smi, parse_rocm_smi, parse_u64_str,
    prompt_selection, split_fields, trim_str,
};

fn lines(text: &str) -> Vec<String> {
    text.lines().map(|l| l.to_string()).collect()
}

#[test]
fn fields_are_split_and_trimmed() {
    assert_eq!(split_fields(" a , b ,c", ','), vec!["a", "b", "c"]);
    assert_eq!(split_fields("", ','), vec![""]);
    assert_eq!(split_fields("x,", ','), vec!["x", ""]);
    assert_eq!(trim_str("\u{3000} mid \t"), "mid");
    assert_eq!(trim_str("   "), "");
}

#[test]
fn numbers_read_like_from_str() {
    assert_eq!(parse_u64_str("42"), Some(42));
    assert_eq!(parse_u64_str("+7"), Some(7));
    assert_eq!(parse_u64_str("+"), None);
    assert_eq!(parse_u64_str(""), None);
    assert_eq!(parse_u64_str("12a"), None);
    assert_eq!(parse_u64_str("18446744073709551615"), Some(u64::MAX));
    assert_eq!(parse_u64_str("18446744073709551616"), None);
}

#[test]
fn nvidia_smi_lines() {
    let g = parse_nvidia_line("0, NVIDIA GeForce RTX 3080 Laptop GPU, 8192, 535.54, 8.6, 00000000:01:00.0", 9).unwrap();
    assert_eq!(g.index, 0);
    assert_eq!(g.name, "NVIDIA GeForce RTX 3080 Laptop GPU");
    assert_eq!(g.vendor, GpuVendor::Nvidia);
    assert_eq!(g.backend, GpuBackend::Cuda);
    assert_eq!(g.vram_mb, Some(8192));
    assert_eq!(g.driver_version.as_deref(), Some("535.54"));
    assert_eq!(g.compute_capability.as_deref(), Some("8.6"));
    assert_eq!(g.pci_id.as_deref(), Some("00000000:01:00.0"));
    assert!(g.is_integrated);
    assert!(parse_nvidia_line("0, short, line", 0).is_none());

    let all = parse_nvidia_smi(&lines("x, A100, [N/A], 1, 8.0, p\nbad\ny, H100 MAX-Q, 81920, 1, 9.0, q"));
    assert_eq!(all.len(), 2);
    assert_eq!(all[0].index, 0);
    assert_eq!(all[0].vram_mb, None);
    assert_eq!(all[1].index, 1);
    assert!(all[1].is_integrated);
}

#[test]
fn rocm_smi_csv() {
    let out = parse_rocm_smi(&lines("device,Card series,VRAM Total Memory (B)\ncard0,Radeon RX 7900 XTX,25753026560\ncard1"));
    assert_eq!(out.len(), 1);
    assert_eq!(out[0].index, 0);
    assert_eq!(out[0].name, "Radeon RX 7900 XTX");
    assert_eq!(out[0].vram_mb, Some(25753026560 / 1024 / 1024));
    assert_eq!(out[0].vendor, GpuVendor::Amd);
    assert!(!out[0].is_integrated);
}

#[test]
fn lspci_display_lines() {
    let text = "00:02.0 VGA compatible controller [0300]: Intel Corporation UHD Graphics 630 [8086:3e92]\n\
                03:00.0 Display controller [0380]: Advanced Micro Devices, Inc. [AMD/ATI] Renoir APU [1002:1636]\n\
                04:00.0 Audio device [0403]: Intel Corporation [8086:a348]";
    let amd = parse_lspci(&lines(text), true);
    assert_eq!(amd.len(), 1);
    assert_eq!(amd[0].index, 1);
    assert_eq!(amd[0].pci_id.as_deref(), Some("0380"));
    assert!(amd[0].is_integrated);
    let intel = parse_lspci(&lines(text), false);
    assert_eq!(intel.len(), 1);
    assert_eq!(intel[0].index, 0);
    assert_eq!(intel[0].backend, GpuBackend::OpenCl);
    assert_eq!(intel[0].pci_id.as_deref(), Some("0300"));
    assert!(intel[0].name.starts_with("00:02.0 VGA"));
}

#[test]
fn clinfo_devices() {
    let text = "Number of platforms 1\n  Platform Name   Intel(R) OpenCL\n  Device Name: Intel(R) UHD Graphics\n  Global Memory Size: 13271023616 (12.36GiB)\n  Driver Version: 23.05.25593\n  Device Name: NVIDIA GeForce GTX 1650\n  Global Memory Size: nope\n";
    let gpus = parse_clinfo(&lines(text));
    assert_eq!(gpus.len(), 2);
    assert_eq!(gpus[0].index, 0);
    assert_eq!(gpus[0].name, "Intel(R) UHD Graphics");
    assert_eq!(gpus[0].vendor, GpuVendor::Intel);
    assert_eq!(gpus[0].vram_mb, Some(13271023616 / 1024 / 1024));
    assert_eq!(gpus[0].driver_version.as_deref(), Some("23.05.25593"));
    assert!(gpus[0].is_integrated);
    assert_eq!(gpus[1].index, 1);
    assert_eq!(gpus[1].vendor, GpuVendor::Nvidia);
    assert_eq!(gpus[1].vram_mb, None);
    assert!(!gpus[1].is_integrated);
}

#[test]
fn prompt_choices() {
    assert_eq!(prompt_selection(3, "2\n"), Some(1));
    assert_eq!(prompt_selection(3, "4\n"), None);
    assert_eq!(prompt_selection(3, "9"), Some(0));
    assert_eq!(prompt_selection(3, "zero"), Some(0));
}
