use localmind::download::{
    asset_for, download_refused, download_start, ensure_free_space, extract, part_path, poll_step, required_space,
    ArchiveKind, DownloadMeter, DownloadStart, PollNext,
};
use localmind::platform::{Backend, TargetOs};
use localmind::providers::{ProviderError, PullStatus};
use localmind::runtime::{
    autostart_wanted, setup_outcome, sidecar_config_for, with_model, with_runtime_config, DeviceProbe,
    EmbeddedRuntimeRow, EmbeddedSetupStage, RuntimeError, Setup, SetupNext,
};

#[test]
fn a_gpu_on_the_vulkan_build_offloads_every_layer() {
    let mut setup = Setup::start();
    let (notice, next) = setup.after_probe(DeviceProbe::GpuAvailable("Radeon 780M".to_string()));
    assert_eq!(notice.as_deref(), Some("GPU detectada: Radeon 780M"));
    assert!(matches!(next, SetupNext::DownloadModel));
    assert_eq!(setup.gpu_layers, -1);
    assert_eq!(setup.backend, Backend::Vulkan);
}

#[test]
fn the_vulkan_build_on_the_cpu_keeps_every_layer_there() {
    let mut setup = Setup::start();
    let (notice, next) = setup.after_probe(DeviceProbe::CpuOnly);
    assert_eq!(notice.as_deref(), Some("Nenhuma GPU compatível encontrada — usando CPU"));
    assert!(matches!(next, SetupNext::DownloadModel));
    assert_eq!(setup.gpu_layers, 0);
}

#[test]
fn a_vulkan_build_that_cannot_start_falls_back_to_the_cpu_build_once() {
    let mut setup = Setup::start();
    let (notice, next) = setup.after_probe(DeviceProbe::BinaryFailed("no loader".to_string()));
    assert_eq!(notice.as_deref(), Some("Build Vulkan não executou (no loader) — baixando a versão CPU"));
    assert!(matches!(next, SetupNext::DownloadBackend(Backend::Cpu)));
    assert_eq!(setup.backend, Backend::Cpu);

    let (notice, next) = setup.after_probe(DeviceProbe::BinaryFailed("illegal instruction".to_string()));
    assert!(notice.is_none());
    match next {
        SetupNext::Fail(m) => assert_eq!(m, "o llama-server não executa nesta máquina: illegal instruction"),
        other => panic!("expected the setup to fail, got {other:?}"),
    }
}

#[test]
fn the_installed_row_records_the_build_and_the_layers() {
    let mut setup = Setup::start();
    setup.after_probe(DeviceProbe::GpuAvailable("gpu".to_string()));
    let row = setup.installed_row("b10107".to_string(), "/rt/llama-server".to_string(), "/m/phi.gguf".to_string());
    assert_eq!(row.release_tag.as_deref(), Some("b10107"));
    assert_eq!(row.backend.as_deref(), Some("vulkan"));
    assert_eq!(row.gpu_layers, Some(-1));
    assert_eq!(row.context_length, None);

    let running = setup_outcome(&row, Ok(8081));
    assert_eq!(running.stage, EmbeddedSetupStage::Running);
    assert_eq!(running.port, Some(8081));
    assert_eq!(running.model_name.as_deref(), Some("phi.gguf"));

    let stopped = setup_outcome(&row, Err("porta ocupada".to_string()));
    assert_eq!(stopped.stage, EmbeddedSetupStage::Ready);
    assert_eq!(stopped.message.as_deref(), Some("porta ocupada"));
}

#[test]
fn a_row_without_both_paths_cannot_start() {
    let err = sidecar_config_for(&EmbeddedRuntimeRow::default(), 9000).unwrap_err();
    assert_eq!(err, "o runtime embutido ainda não foi instalado");

    let row = EmbeddedRuntimeRow {
        binary_path: Some("/rt/llama-server".to_string()),
        model_path: Some("/m/phi.gguf".to_string()),
        context_length: Some(4096),
        ..Default::default()
    };
    let cfg = sidecar_config_for(&row, 9000).unwrap();
    assert_eq!(cfg.port, 9000);
    assert_eq!(cfg.gpu_layers, 0);
    assert_eq!(cfg.context_length, Some(4096));
}

#[test]
fn new_settings_replace_the_context_and_keep_unset_layers() {
    let row = EmbeddedRuntimeRow { context_length: Some(4096), gpu_layers: Some(-1), ..Default::default() };
    let row = with_runtime_config(row, None, None);
    assert_eq!(row.context_length, None);
    assert_eq!(row.gpu_layers, Some(-1));
    let row = with_runtime_config(row, Some(8192), Some(0));
    assert_eq!(row.context_length, Some(8192));
    assert_eq!(row.gpu_layers, Some(0));
}

#[test]
fn switching_to_the_same_model_changes_nothing() {
    let row = EmbeddedRuntimeRow { model_path: Some("/m/a.gguf".to_string()), ..Default::default() };
    let (row, changed) = with_model(row, "/m/a.gguf".to_string());
    assert!(!changed);
    let (row, changed) = with_model(row, "/m/b.gguf".to_string());
    assert!(changed);
    assert_eq!(row.model_path.as_deref(), Some("/m/b.gguf"));
}

#[test]
fn the_server_starts_at_boot_only_when_ready_and_active() {
    assert!(autostart_wanted(Some("embedded"), true));
    assert!(!autostart_wanted(Some("embedded"), false));
    assert!(!autostart_wanted(Some("ollama"), true));
    assert!(!autostart_wanted(None, true));
}

#[test]
fn a_download_is_written_next_to_its_destination() {
    assert_eq!(part_path("/m/phi.gguf"), "/m/phi.gguf.part");
}

#[test]
fn a_download_needs_half_as_much_again_free() {
    assert_eq!(required_space(1000), 1500);
    assert_eq!(required_space(3), 4);
    assert_eq!(required_space(u64::MAX), u64::MAX);
    assert!(ensure_free_space(1000, Some(1499)).is_err());
    assert!(ensure_free_space(1000, Some(1500)).is_ok());
    assert!(ensure_free_space(1000, None).is_ok(), "an unknown free space never blocks");
    let short = ensure_free_space(2_000_000_000, Some(1)).unwrap_err();
    assert_eq!(short.required, 3_000_000_000);
    assert_eq!(short.available, 1);
}

#[test]
fn a_refused_download_names_the_status_and_the_url() {
    match download_refused("404 Not Found", "https://x/m.gguf") {
        RuntimeError::Network(m) => assert_eq!(m, "o servidor respondeu 404 Not Found ao baixar https://x/m.gguf"),
        other => panic!("expected a network error, got {other:?}"),
    }
}

#[test]
fn progress_counts_every_byte() {
    let mut meter = DownloadMeter::new(Some(10));
    let p = meter.on_chunk(4);
    assert_eq!(p.status, PullStatus::Downloading);
    assert_eq!(p.downloaded_bytes, Some(4));
    let p = meter.on_chunk(6);
    assert_eq!(p.downloaded_bytes, Some(10));
    assert_eq!(p.total_bytes, Some(10));
    let done = meter.finished();
    assert_eq!(done.status, PullStatus::Success);
    assert_eq!(done.downloaded_bytes, Some(10));
}

#[test]
fn rejects_an_unknown_archive_format() {
    let err = extract("/tmp/x/bundle.7z").unwrap_err();
    assert!(matches!(err, RuntimeError::Io(_)));
}

#[test]
fn archives_are_recognised_in_any_case() {
    assert_eq!(extract("/rt/BUNDLE.ZIP").unwrap(), ArchiveKind::Zip);
    assert_eq!(extract("/rt/llama.Tar.Gz").unwrap(), ArchiveKind::TarGz);
    assert_eq!(extract("/rt/llama.tgz").unwrap(), ArchiveKind::TarGz);
}

#[test]
fn a_missing_build_names_the_file_looked_for() {
    match asset_for(&[], TargetOs::Linux, Backend::Cpu) {
        Err(RuntimeError::AssetNotFound(s)) => assert_eq!(s, "-bin-ubuntu-x64.tar.gz"),
        other => panic!("expected a missing asset, got {other:?}"),
    }
}

#[test]
fn lm_studio_downloads_are_followed_until_done() {
    match download_start("already_downloaded", None, Some(42)) {
        DownloadStart::AlreadyThere(p) => {
            assert_eq!(p.status, PullStatus::Success);
            assert_eq!(p.downloaded_bytes, Some(42));
        },
        other => panic!("expected an immediate success, got {other:?}"),
    }
    match download_start("downloading", Some("job-1".to_string()), None) {
        DownloadStart::Follow(j) => assert_eq!(j, "job-1"),
        other => panic!("expected a job to follow, got {other:?}"),
    }
    match download_start("downloading", None, None) {
        DownloadStart::Failed(ProviderError::ParseError(m)) => assert_eq!(m, "missing job_id in download response"),
        other => panic!("expected a parse error, got {other:?}"),
    }

    let (p, next) = poll_step("downloading".to_string(), Some(5), Some(10));
    assert_eq!(p.status, PullStatus::Downloading);
    assert!(matches!(next, PollNext::Again));
    let (p, next) = poll_step("completed".to_string(), Some(10), Some(10));
    assert_eq!(p.status, PullStatus::Success);
    assert!(matches!(next, PollNext::Done));
    let (p, next) = poll_step("failed".to_string(), None, None);
    assert_eq!(p.status, PullStatus::Error);
    assert_eq!(p.message.as_deref(), Some("failed"));
    match next {
        PollNext::Failed(ProviderError::RequestFailed(m)) => assert_eq!(m, "lm studio reported a failed download"),
        other => panic!("expected a failure, got {other:?}"),
    }
}
