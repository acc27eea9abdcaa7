use localmind::config::{resolve_bootstrap_dir, resolve_default_base_path, AppConfig, InstallFlavor, PORTABLE_DATA_DIR};
use localmind::platform::{pick_asset, Asset, Backend, TargetOs};
use localmind::runtime::{build_args, EmbeddedRuntimeRow, SidecarConfig};
use std::path::Path;

#[test]
fn installed_builds_keep_using_the_os_folders() {
    let os_dir = "/os/config/com.localmind.app";
    let app_dir = "/opt/localmind";

    assert_eq!(resolve_bootstrap_dir(InstallFlavor::Installed, Some(app_dir), os_dir).unwrap(), os_dir);
}

#[test]
fn portable_builds_stay_next_to_the_executable() {
    let os_dir = "/os/config/com.localmind.app";
    let app_dir = "/media/usb/LocalMind";
    let expected = Path::new(app_dir).join(PORTABLE_DATA_DIR).to_string_lossy().into_owned();

    assert_eq!(resolve_bootstrap_dir(InstallFlavor::Portable, Some(app_dir), os_dir).unwrap(), expected);
    assert_eq!(resolve_default_base_path(InstallFlavor::Portable, Some(app_dir), os_dir).unwrap(), expected);
}

#[test]
fn portable_without_a_known_app_dir_is_an_error_not_a_silent_fallback() {
    let os_dir = "/os/config";
    assert!(resolve_bootstrap_dir(InstallFlavor::Portable, None, os_dir).is_err());
}

#[test]
fn automatic_update_check_defaults_to_on() {
    assert!(AppConfig::default().auto_update_check);
    assert!(AppConfig::default().skipped_version.is_none());
}

fn b10107_assets() -> Vec<Asset> {
    [
        "llama-b10107-bin-win-cpu-x64.zip",
        "llama-b10107-bin-win-cuda-12.4-x64.zip",
        "llama-b10107-bin-win-cuda-13.3-x64.zip",
        "llama-b10107-bin-win-vulkan-x64.zip",
        "llama-b10107-bin-win-hip-radeon-x64.zip",
        "llama-b10107-bin-ubuntu-x64.tar.gz",
        "llama-b10107-bin-ubuntu-vulkan-x64.tar.gz",
        "llama-b10107-bin-ubuntu-vulkan-arm64.tar.gz",
    ]
    .iter()
    .map(|name| Asset {
        name: name.to_string(),
        browser_download_url: format!("https://example.invalid/{name}"),
        size: 1,
    })
    .collect()
}

#[test]
fn picks_the_windows_vulkan_build() {
    let assets = b10107_assets();
    let picked = pick_asset(&assets, TargetOs::Windows, Backend::Vulkan).unwrap();
    assert_eq!(picked.name, "llama-b10107-bin-win-vulkan-x64.zip");
}

#[test]
fn picks_the_windows_cpu_build() {
    let assets = b10107_assets();
    let picked = pick_asset(&assets, TargetOs::Windows, Backend::Cpu).unwrap();
    assert_eq!(picked.name, "llama-b10107-bin-win-cpu-x64.zip");
}

#[test]
fn picks_the_linux_builds_without_grabbing_arm64() {
    let assets = b10107_assets();
    let vulkan = pick_asset(&assets, TargetOs::Linux, Backend::Vulkan).unwrap();
    assert_eq!(vulkan.name, "llama-b10107-bin-ubuntu-vulkan-x64.tar.gz");

    let cpu = pick_asset(&assets, TargetOs::Linux, Backend::Cpu).unwrap();
    assert_eq!(cpu.name, "llama-b10107-bin-ubuntu-x64.tar.gz");
}

#[test]
fn never_falls_back_to_a_cuda_or_hip_build() {
    let assets: Vec<Asset> = b10107_assets().into_iter().filter(|a| !a.name.contains("vulkan")).collect();

    let picked = pick_asset(&assets, TargetOs::Windows, Backend::Vulkan);

    assert!(picked.is_none(), "a missing asset must not resolve to a guess");
}

#[test]
fn missing_asset_returns_none() {
    assert!(pick_asset(&[], TargetOs::Linux, Backend::Cpu).is_none());
}

#[test]
fn is_ready_requires_both_paths_to_exist_on_disk() {
    let row = EmbeddedRuntimeRow {
        binary_path: Some("/nope/llama-server".to_string()),
        model_path: Some("/nope/phi.gguf".to_string()),
        ..Default::default()
    };
    assert!(!row.is_ready());
}

fn cfg(context_length: Option<u32>, gpu_layers: i32) -> SidecarConfig {
    SidecarConfig {
        binary: "llama-server".to_string(),
        model: "/models/phi.gguf".to_string(),
        port: 1234,
        context_length,
        gpu_layers,
    }
}

#[test]
fn gpu_layers_map_to_ngl() {
    let gpu = build_args(&cfg(None, -1));
    assert_eq!(gpu.windows(2).find(|w| w[0] == "-ngl").unwrap()[1], "-1");

    let cpu = build_args(&cfg(None, 0));
    assert_eq!(cpu.windows(2).find(|w| w[0] == "-ngl").unwrap()[1], "0");
}

#[test]
fn context_length_is_omitted_when_not_configured() {
    assert!(!build_args(&cfg(None, 0)).contains(&"-c".to_string()));

    let args = build_args(&cfg(Some(8192), 0));
    assert_eq!(args.windows(2).find(|w| w[0] == "-c").unwrap()[1], "8192");
}

#[test]
fn model_and_host_are_always_passed() {
    let args = build_args(&cfg(None, 0));
    assert_eq!(args.windows(2).find(|w| w[0] == "-m").unwrap()[1], "/models/phi.gguf");
    assert_eq!(args.windows(2).find(|w| w[0] == "--host").unwrap()[1], "127.0.0.1");
    assert_eq!(args.windows(2).find(|w| w[0] == "--port").unwrap()[1], "1234");
}
