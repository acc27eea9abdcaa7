use localmind::config::{base_subdir, bootstrap_file, folder_layout};
use localmind::context::{assemble_messages, source_block, wants_retrieval, Attachment, HistoryEntry, MemoryHit, CONTEXT_PREAMBLE, SYSTEM_PROMPT};
use localmind::documents::{join_pages, needs_pdf_reader};
use localmind::download::{archive_file_name, available_space, DiskSpace};
use localmind::platform::{server_binary_name, TargetOs};
use localmind::providers::{custom_config_applied, embedded_config_applied, ollama_config_applied, ChatMessage};
use localmind::runtime::{health_wait, stage_for, EmbeddedSetupStage, HealthWait, RuntimeError};
use localmind::connections::Registry;
use std::path::Path;

fn turn(id: &str, role: &str, content: &str) -> HistoryEntry {
    HistoryEntry { id: id.to_string(), message: ChatMessage { role: role.to_string(), content: content.to_string() } }
}

#[test]
fn the_prompt_is_system_history_then_the_question_with_its_passages() {
    let messages = assemble_messages(
        "pergunta",
        None,
        &[],
        &[source_block("a.pdf", "trecho")],
        Vec::new(),
        vec![turn("1", "user", "oi"), turn("2", "assistant", "olá")],
        false,
    );
    let roles: Vec<&str> = messages.iter().map(|m| m.role.as_str()).collect();
    assert_eq!(roles, vec!["system", "user", "assistant", "user"]);
    assert_eq!(messages[0].content, SYSTEM_PROMPT);
    assert_eq!(messages[3].content, format!("{CONTEXT_PREAMBLE}\n\n[fonte: a.pdf]\ntrecho\n\n---\n\npergunta"));
}

#[test]
fn a_recalled_turn_still_quoted_in_the_history_is_not_repeated() {
    let messages = assemble_messages(
        "e agora?",
        Some(8192),
        &[],
        &[],
        vec![MemoryHit { answer_id: "2".to_string(), text: "Assistente: olá".to_string() }],
        vec![turn("1", "user", "oi"), turn("2", "assistant", "olá")],
        true,
    );
    assert_eq!(messages.last().unwrap().content, "e agora?");
}

#[test]
fn attachments_that_fill_the_budget_leave_nothing_for_retrieval() {
    let big = Attachment { filename: "nota.txt".to_string(), text: "x".repeat(100_000) };
    assert!(!wants_retrieval("pergunta", Some(4096), &[big]));
    let small = Attachment { filename: "nota.txt".to_string(), text: "curta".to_string() };
    assert!(wants_retrieval("pergunta", Some(4096), &[small]));
}

#[test]
fn waiting_for_the_server_ends_on_health_exit_or_deadline() {
    assert!(matches!(health_wait(None, true, false), HealthWait::Ready));
    assert!(matches!(health_wait(None, false, false), HealthWait::Wait));
    match health_wait(None, false, true) {
        HealthWait::Failed(RuntimeError::Network(m)) => assert_eq!(m, "o llama-server não respondeu ao health check a tempo"),
        other => panic!("expected a timeout, got {other:?}"),
    }
    match health_wait(Some("exit status: 1"), true, false) {
        HealthWait::Failed(RuntimeError::Io(m)) => assert_eq!(m, "o llama-server encerrou antes de ficar pronto (exit status: 1)"),
        other => panic!("expected an early exit, got {other:?}"),
    }
    assert_eq!(stage_for(Some(1), false), EmbeddedSetupStage::Running);
    assert_eq!(stage_for(None, true), EmbeddedSetupStage::Ready);
    assert_eq!(stage_for(None, false), EmbeddedSetupStage::NotInstalled);
}

#[test]
fn the_longest_mount_point_holding_a_folder_wins() {
    let disks = vec![
        DiskSpace { mount_point: "/".to_string(), available: 10 },
        DiskSpace { mount_point: "/home".to_string(), available: 20 },
        DiskSpace { mount_point: "/home2".to_string(), available: 30 },
    ];
    assert_eq!(available_space("/home/ana/dados", &disks), Some(20));
    assert_eq!(available_space("/var/tmp", &disks), Some(10));
    assert_eq!(available_space("/var/tmp", &[]), None);
}

#[test]
fn an_archive_is_saved_under_the_last_segment_of_its_url() {
    assert_eq!(archive_file_name("https://github.com/x/releases/download/v1/pdfium-linux-x64.tgz"), "pdfium-linux-x64.tgz");
    assert_eq!(archive_file_name("sem-barra"), "sem-barra");
}

#[test]
fn only_pdfs_need_the_pdf_reader() {
    assert!(needs_pdf_reader("a.PDF"));
    assert!(!needs_pdf_reader("nota.txt"));
    assert_eq!(join_pages(&["um".to_string(), "dois".to_string()]), "um\ndois\n");
    assert_eq!(join_pages(&[]), "");
}

#[test]
fn pinned_downloads_are_well_formed() {
    let url = localmind::onnxruntime::asset_url(Some(TargetOs::Linux)).unwrap();
    assert!(url.ends_with("onnxruntime-linux-x64-1.28.0.tgz"));
    assert!(localmind::onnxruntime::asset_url(None).is_none());
    assert_eq!(localmind::onnxruntime::dylib_name(TargetOs::Windows), "onnxruntime.dll");
    let pdfium = localmind::pdfium::asset_url(Some(TargetOs::Windows)).unwrap();
    assert!(pdfium.contains("chromium/7961"));
    assert!(pdfium.ends_with(".tgz"));
    assert_eq!(server_binary_name(TargetOs::Linux), "llama-server");
}

#[test]
fn the_base_folder_holds_the_app_data() {
    let expected = Path::new("/dados").join("localmind.db").to_string_lossy().into_owned();
    assert_eq!(localmind::config::db_path("/dados"), expected);
    assert_eq!(bootstrap_file("/cfg"), Path::new("/cfg").join("config.json").to_string_lossy().into_owned());
    assert_eq!(base_subdir("/dados", "models"), Path::new("/dados").join("models").to_string_lossy().into_owned());
    assert!(!folder_layout("/dados").is_empty());
}

#[test]
fn each_runtime_reports_what_it_applied() {
    let o = ollama_config_applied(Some(4096), Some("0.5".to_string()));
    assert!(!o.requires_reload);
    assert_eq!(o.gpu_offload_applied.as_deref(), Some("0.5"));
    let c = custom_config_applied();
    assert!(c.context_length_applied.is_none());
    let e = embedded_config_applied(None, Some("max".to_string()));
    assert!(e.requires_reload);
}

#[test]
fn a_connection_is_found_by_id() {
    let mut reg = Registry::new();
    let a = reg.create_connection("ollama".to_string(), "http://a".to_string()).unwrap();
    assert_eq!(reg.find_connection(&a.id).unwrap().base_url, "http://a");
    assert_eq!(reg.find_connection("nope").unwrap_err(), "Conexão não encontrada");
}

#[test]
fn the_pinned_asset_url_is_well_formed_for_this_platform() {
    for os in [TargetOs::Windows, TargetOs::Linux] {
        let url = localmind::pdfium::asset_url(Some(os)).expect("Windows and Linux are supported");
        assert!(url.contains(localmind::pdfium::PDFIUM_RELEASE));
        assert!(url.ends_with(".tgz"));
    }
    let url = localmind::pdfium::asset_url(Some(TargetOs::Linux)).expect("Linux is supported");
    assert!(url.contains(localmind::pdfium::PDFIUM_RELEASE));
    assert!(url.ends_with(".tgz"));
}

#[test]
fn a_non_pdf_needs_no_library() {
    assert!(!needs_pdf_reader("nota.txt"));
    assert!(needs_pdf_reader("a.PDF"));
}

#[test]
fn an_empty_row_has_nothing_stored_and_is_not_ready() {
    let row = localmind::runtime::EmbeddedRuntimeRow::default();
    assert!(row.release_tag.is_none());
    assert!(!row.is_ready());
}
