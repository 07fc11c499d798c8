//! Device vocabulary, host readings and device metrics.

use muna_server::platform::devices::{
    check, cpu_devices, is_nvml_library, metal_devices, nvml_devices, nvml_memory_used,
    DeviceReading,
};
use muna_server::platform::family::{GpuFamily, GpuVendor};
use muna_server::platform::host::{disk_space, pages_to_mb, parse_meminfo, parse_statm};

fn device_names() -> Vec<(&'static str, Option<GpuFamily>)> {
    vec![
        ("NVIDIA H100 80GB HBM3", Some(GpuFamily::H100)),
        ("NVIDIA H100 PCIe", Some(GpuFamily::H100)),
        ("NVIDIA A100-SXM4-80GB", Some(GpuFamily::A100)),
        ("NVIDIA A10G", Some(GpuFamily::A10G)),
        ("NVIDIA B200", Some(GpuFamily::B200)),
        ("AMD Instinct MI355X", Some(GpuFamily::MI355X)),
        ("Apple M4 Pro", None),
        ("Tesla T4", None),
    ]
}

#[test]
fn metrics_family_maps_real_device_names() {
    for (name, expected) in device_names() {
        assert_eq!(GpuFamily::from_device_name(name), expected, "{name}");
    }
}

/// "L4" is a substring of "L40S"; token matching keeps them distinct.
#[test]
fn metrics_family_does_not_confuse_l4_with_l40s() {
    assert_eq!(GpuFamily::from_device_name("NVIDIA L4"), Some(GpuFamily::L4));
    assert_eq!(GpuFamily::from_device_name("NVIDIA L40S"), Some(GpuFamily::L40S));
}

/// The wire spelling is the lowercase slug.
#[test]
fn metrics_family_wire_spelling_is_lowercase() {
    assert_eq!(GpuFamily::H100.slug(), "h100");
    assert_eq!(GpuFamily::MI355X.slug(), "mi355x");
}

#[test]
fn family_family_maps_real_device_names() {
    for (name, expected) in device_names() {
        assert_eq!(GpuFamily::from_device_name(name), expected, "{name}");
    }
}

#[test]
fn family_family_does_not_confuse_l4_with_l40s() {
    assert_eq!(GpuFamily::from_device_name("NVIDIA L4"), Some(GpuFamily::L4));
    assert_eq!(GpuFamily::from_device_name("NVIDIA L40S"), Some(GpuFamily::L40S));
}

#[test]
fn family_family_wire_spelling_is_lowercase() {
    assert_eq!(serde_json::Value::from(GpuFamily::H100.slug()), "h100");
    assert_eq!(serde_json::Value::from(GpuFamily::MI355X.slug()), "mi355x");
}

#[test]
fn every_family_has_its_own_slug() {
    let families = [
        GpuFamily::Cpu,
        GpuFamily::A10G,
        GpuFamily::L4,
        GpuFamily::L40S,
        GpuFamily::A100,
        GpuFamily::H100,
        GpuFamily::H200,
        GpuFamily::B200,
        GpuFamily::B300,
        GpuFamily::MI350X,
        GpuFamily::MI355X,
    ];
    for (i, a) in families.iter().enumerate() {
        assert_eq!(a.slug(), a.slug().to_lowercase());
        for b in &families[i + 1..] {
            assert_ne!(a.slug(), b.slug());
        }
    }
    assert_eq!(GpuVendor::Nvidia.slug(), "nvidia");
    assert_eq!(GpuVendor::Unknown.slug(), "unknown");
}

#[test]
fn a_token_matches_whole_words_only() {
    assert_eq!(GpuFamily::from_device_name("NVIDIA XH100"), None);
    assert_eq!(GpuFamily::from_device_name(""), None);
    assert_eq!(GpuFamily::from_device_name("nvidia h200"), Some(GpuFamily::H200));
}

#[test]
fn meminfo_total_is_read_in_megabytes() {
    let report = "MemFree:        1024 kB\nMemTotal:       16384000 kB\nSwapTotal: 0 kB\n";
    assert_eq!(parse_meminfo(report), Some(16_000));
    assert_eq!(parse_meminfo("MemFree: 12 kB\n"), None);
    assert_eq!(parse_meminfo("MemTotal: lots kB\n"), None);
    assert_eq!(parse_meminfo(""), None);
}

#[test]
fn statm_resident_pages_are_the_second_field() {
    assert_eq!(parse_statm("100 2560 30 4 0 5 0"), Some(2560));
    assert_eq!(parse_statm("100"), None);
    assert_eq!(parse_statm("100 x"), None);
    assert_eq!(pages_to_mb(2560), 10);
    assert_eq!(pages_to_mb(255), 0);
}

#[test]
fn disk_space_is_free_and_total_megabytes() {
    assert_eq!(disk_space(4096, 8192, 512, 1024), (2, 4));
    // A file system without fragment size counts blocks.
    assert_eq!(disk_space(0, 8192, 512, 1024), (4, 8));
    // Products saturate.
    assert_eq!(disk_space(u64::MAX, 1, 2, 2).0, u64::MAX / 1_048_576);
}

fn reading(index: u32, name: Option<&str>, memory: Option<(u64, u64, u64)>) -> DeviceReading {
    DeviceReading {
        index,
        name: name.map(str::to_string),
        memory,
        utilization_pct: Some(7),
        temperature_c: None,
    }
}

const MB: u64 = 1_048_576;

#[test]
fn nvml_readings_become_metrics() {
    let readings = vec![
        reading(0, Some("NVIDIA L4"), Some((24 * MB, 4 * MB, 20 * MB))),
        reading(1, Some("NVIDIA T4"), Some((16 * MB, MB, 15 * MB))),
        reading(2, Some("NVIDIA L4"), None),
    ];
    let devices = nvml_devices(&readings);
    assert_eq!(devices.len(), 2);
    assert_eq!(devices[0].index, 0);
    assert_eq!(devices[0].vendor, GpuVendor::Nvidia);
    assert_eq!(devices[0].name, "NVIDIA L4");
    assert_eq!(devices[0].family, Some(GpuFamily::L4));
    assert_eq!(devices[0].vram_total_mb, 24);
    assert_eq!(devices[0].vram_used_mb, Some(4));
    assert_eq!(devices[0].vram_free_mb, Some(20));
    assert_eq!(devices[0].utilization_pct, Some(7));
    assert_eq!(devices[0].temperature_c, None);
    assert_eq!(devices[1].family, None);
    assert_eq!(nvml_memory_used(&readings), Some(5));
}

#[test]
fn cpu_nodes_report_system_memory() {
    let devices = cpu_devices(Some(1000), Some(300));
    assert_eq!(devices.len(), 1);
    assert_eq!(devices[0].family, Some(GpuFamily::Cpu));
    assert_eq!(devices[0].vram_total_mb, 1000);
    assert_eq!(devices[0].vram_used_mb, Some(300));
    assert_eq!(devices[0].vram_free_mb, Some(700));
}

#[test]
fn metal_devices_share_memory() {
    let devices = metal_devices("Apple M4 Pro".to_string(), 100 * MB, Some(40));
    assert_eq!(devices[0].vendor, GpuVendor::Apple);
    assert_eq!(devices[0].family, None);
    assert_eq!(devices[0].vram_total_mb, 100);
    assert_eq!(devices[0].vram_used_mb, Some(40));
    assert_eq!(devices[0].vram_free_mb, Some(60));
}

#[test]
fn driver_codes_are_checked() {
    assert_eq!(check(0, "cuInit"), Ok(()));
    assert_eq!(check(100, "cuInit"), Err("cuInit returned CUDA error 100".to_string()));
}

#[test]
fn nvml_library_names() {
    assert!(is_nvml_library("libnvidia-ml.so.1"));
    assert!(is_nvml_library("libnvidia-ml.so.550.54.15"));
    assert!(!is_nvml_library("libcuda.so.1"));
}
