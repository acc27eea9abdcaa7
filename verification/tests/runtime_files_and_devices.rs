use localmind::documents::copy_name_to_try;
use localmind::runtime::{probe_from_listing, DeviceProbe, EmbeddedRuntimeRow};

fn row(binary: Option<&str>, model: Option<&str>) -> EmbeddedRuntimeRow {
    EmbeddedRuntimeRow {
        binary_path: binary.map(str::to_string),
        model_path: model.map(str::to_string),
        ..Default::default()
    }
}

#[test]
fn the_files_to_check_are_the_two_stored_paths() {
    assert_eq!(
        row(Some("/rt/llama-server"), Some("/m/phi.gguf")).files_to_check(),
        Some(("/rt/llama-server".to_string(), "/m/phi.gguf".to_string()))
    );
    assert_eq!(row(Some("/rt/llama-server"), None).files_to_check(), None);
    assert_eq!(row(None, Some("/m/phi.gguf")).files_to_check(), None);
}

#[test]
fn readiness_needs_both_paths_and_both_files() {
    let both = row(Some("/rt/llama-server"), Some("/m/phi.gguf"));
    assert!(both.ready_from(true, true));
    assert!(!both.ready_from(true, false));
    assert!(!both.ready_from(false, true));
    assert!(!row(Some("/rt/llama-server"), None).ready_from(true, true));
}

#[test]
fn a_row_whose_files_exist_is_ready() {
    assert!(row(Some("/"), Some("/")).is_ready());
    assert!(!row(Some("/"), Some("/nope/phi.gguf")).is_ready());
    assert!(!row(Some("/nope/llama-server"), Some("/")).is_ready());
}

#[test]
fn the_first_vulkan_device_listed_is_the_gpu() {
    let listing = "load_backend: loaded RPC backend\r\nAvailable devices:\n  Vulkan0: AMD Radeon (8176 MiB)\n  Vulkan1: other\n";
    match probe_from_listing(listing) {
        DeviceProbe::GpuAvailable(name) => assert_eq!(name, "Vulkan0: AMD Radeon (8176 MiB)"),
        other => panic!("expected a GPU, got {other:?}"),
    }
}

#[test]
fn a_listing_without_vulkan_is_cpu_only() {
    assert!(matches!(probe_from_listing("Available devices:\n"), DeviceProbe::CpuOnly));
    assert!(matches!(probe_from_listing(""), DeviceProbe::CpuOnly));
    assert!(matches!(probe_from_listing("GPU: no Vulkan here"), DeviceProbe::CpuOnly));
}

#[test]
fn copy_names_are_tried_in_order_until_they_run_out() {
    assert_eq!(copy_name_to_try("nota.txt", 0).as_deref(), Some("nota.txt"));
    assert_eq!(copy_name_to_try("nota.txt", 1).as_deref(), Some("nota (2).txt"));
    assert_eq!(copy_name_to_try("nota.txt", 998).as_deref(), Some("nota (999).txt"));
    assert_eq!(copy_name_to_try("nota.txt", 999), None);
    assert_eq!(copy_name_to_try("nota.txt", u64::MAX), None);
}
