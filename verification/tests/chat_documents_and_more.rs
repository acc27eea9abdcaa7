use localmind::chat::{Generation, Message, StreamEvent};
use localmind::config::{database_to_open, db_path, AppConfig};
use localmind::connections::{keeps_embedded_server, Connection, ConnectionStatus};
use localmind::documents::{
    check_import, deletion_result, is_supported, is_unfinished, new_document, numbered_copy_name, refusal_reason,
    unique_copy_name, Refusal, MAX_FILE_BYTES,
};
use localmind::providers::{
    answer_token_budget, context_length_from_model_info, gguf_models, gpu_layers_for, health_outcome, kv_offload,
    limits_from_entries, lmstudio_config_applied, ollama_options, provider_error_from, EmbeddedClient, InstalledModel,
    ModelEntry, OffloadChoice, ProviderError,
};
use localmind::rag::{passage_inputs, query_input, words, EmbeddingError};
use localmind::ranking::Candidate;
use localmind::retrieval::{
    candidates_from, document_blocks, memory_hits, names_table, needs_neighbour, source_label, with_neighbour, StoredChunk,
};
use localmind::schema::pending_migrations;
use localmind::stream::ChatToken;

fn token(delta: &str, done: bool) -> StreamEvent {
    StreamEvent::Item(Ok(ChatToken { delta: delta.to_string(), done }))
}

#[test]
fn a_completed_answer_is_stored_whole() {
    let mut g = Generation::new("chat".to_string(), "msg".to_string());
    let mut shown = String::new();
    for e in [token("Olá", false), token("", false), token(", mundo", true), token("depois", false)] {
        if let Some(c) = g.on_event(e) {
            assert_eq!(c.chat_id, "chat");
            assert_eq!(c.message_id, "msg");
            assert!(!c.done);
            shown.push_str(&c.delta);
        }
    }
    let outcome = g.finish("user-1".to_string());
    assert_eq!(shown, "Olá, mundo");
    assert_eq!(outcome.answer.as_deref(), Some("Olá, mundo"));
    assert!(outcome.last_chunk.done);
    assert_eq!(outcome.last_chunk.delta, "");
    assert!(outcome.last_chunk.error.is_none());
    assert_eq!(outcome.result, Ok("user-1".to_string()));
}

#[test]
fn a_cancelled_answer_keeps_what_was_already_shown() {
    let mut g = Generation::new("chat".to_string(), "msg".to_string());
    assert!(g.on_event(token("parte", false)).is_some());
    assert!(g.on_event(StreamEvent::Cancelled).is_none());
    assert!(g.on_event(token(" perdida", false)).is_none());
    let outcome = g.finish("user-1".to_string());
    assert_eq!(outcome.answer.as_deref(), Some("parte"));
    assert_eq!(outcome.result, Ok("user-1".to_string()));
}

#[test]
fn a_failed_answer_keeps_its_text_and_reports_the_error() {
    let mut g = Generation::new("chat".to_string(), "msg".to_string());
    g.on_event(token("meia", false));
    g.on_event(StreamEvent::Item(Err(ProviderError::ParseError("bad json".to_string()))));
    let outcome = g.finish("user-1".to_string());
    assert_eq!(outcome.answer.as_deref(), Some("meia"));
    assert_eq!(outcome.last_chunk.error.as_deref(), Some("parse error: bad json"));
    assert_eq!(outcome.result, Err("parse error: bad json".to_string()));
}

#[test]
fn an_answer_with_no_text_stores_nothing() {
    let mut g = Generation::new("chat".to_string(), "msg".to_string());
    g.on_event(token("", true));
    assert!(g.finish("u".to_string()).answer.is_none());
}

#[test]
fn a_new_message_gets_a_fresh_id() {
    let a = Message::create("c", "user", "oi");
    let b = Message::create("c", "user", "oi");
    assert_eq!(a.id.len(), 36);
    assert_ne!(a.id, b.id);
    assert_eq!(a.role, "user");
}

#[test]
fn only_the_accepted_formats_are_imported() {
    assert!(is_supported("contrato.PDF"));
    assert!(is_supported("notas.md"));
    assert!(!is_supported("planilha.xlsx"));
    assert!(!is_supported("sem_extensao"));

    assert!(matches!(check_import(Some("a.xlsx".to_string()), Ok(1)), Err(Refusal::Unsupported)));
    assert!(matches!(check_import(None, Ok(1)), Err(Refusal::Unsupported)));
    match check_import(Some("a.pdf".to_string()), Err("permission denied".to_string())) {
        Err(Refusal::Unreadable(m)) => assert_eq!(m, "permission denied"),
        other => panic!("expected an unreadable file, got {other:?}"),
    }
    assert!(matches!(check_import(Some("a.pdf".to_string()), Ok(MAX_FILE_BYTES + 1)), Err(Refusal::TooLarge(_))));
    assert_eq!(check_import(Some("a.pdf".to_string()), Ok(MAX_FILE_BYTES)).unwrap(), "a.pdf");
    assert_eq!(refusal_reason(&Refusal::Unsupported).as_deref(), Some("formato não suportado. Aceitos: PDF, DOCX, TXT, MD"));
    assert!(refusal_reason(&Refusal::TooLarge(1)).is_none());
}

#[test]
fn a_second_copy_of_a_name_gets_a_number() {
    assert_eq!(numbered_copy_name("relatório.pdf", 2), "relatório (2).pdf");
    assert_eq!(numbered_copy_name("notas", 3), "notas (3)");
    assert_eq!(numbered_copy_name("arquivo.tar.gz", 10), "arquivo.tar (10).gz");
    let last = unique_copy_name("a.txt");
    assert!(last.starts_with("a-") && last.ends_with(".txt"));
    assert_eq!(last.len(), "a-".len() + 36 + ".txt".len());
}

#[test]
fn an_imported_document_starts_queued() {
    let d = new_document("a.pdf".to_string(), "/docs/a.pdf".to_string(), 12);
    assert_eq!(d.status, "queued");
    assert_eq!(d.size_bytes, 12);
    assert_eq!(d.id.len(), 36);
    assert!(is_unfinished("parsing"));
    assert!(!is_unfinished("ready"));
    assert_eq!(deletion_result(0).unwrap_err(), "Documento não encontrado");
    assert!(deletion_result(1).is_ok());
}

fn chunk(doc: &str, index: i32, text: &str) -> StoredChunk {
    StoredChunk { doc_id: doc.to_string(), chunk_index: index, text: text.to_string(), distance: Some(90_000) }
}

#[test]
fn a_hit_is_continued_only_by_a_chunk_not_already_selected() {
    let ranked: Vec<Candidate> = candidates_from("global", vec![chunk("d", 3, "a"), chunk("d", 4, "b"), chunk("e", 9, "c")]);
    assert_eq!(ranked[0].namespace, "global");
    assert!(!needs_neighbour(&ranked, 0), "chunk 4 is already selected on its own");
    assert!(needs_neighbour(&ranked, 1));
    assert!(needs_neighbour(&ranked, 2));
    assert_eq!(with_neighbour("fim de", Some("frase")), "fim de\nfrase");
    assert_eq!(with_neighbour("só", None), "só");

    let blocks = document_blocks(&["a.pdf".to_string()], &["trecho".to_string()]);
    assert_eq!(blocks, vec!["[fonte: a.pdf]\ntrecho".to_string()]);
    let hits = memory_hits(&ranked[..1], vec!["texto".to_string()]);
    assert_eq!(hits[0].answer_id, "d");
    assert_eq!(names_table("global"), "documents");
    assert_eq!(names_table("chat:1"), "chat_attachments");
    assert_eq!(source_label(None), "documento");
}

#[test]
fn the_embedding_model_gets_its_prefixes() {
    assert_eq!(passage_inputs(&["um".to_string()]), vec!["passage: um".to_string()]);
    assert_eq!(query_input("dois"), "query: dois");
    assert_eq!(
        EmbeddingError::Failed("x".to_string()).message(),
        "falha ao gerar embeddings: x"
    );
}

#[test]
fn words_are_lowercased_runs_of_letters_and_digits() {
    assert_eq!(words("Olá, QUE dia 42!"), vec!["olá", "que", "dia", "42"]);
    assert!(words(" ,;").is_empty());
}

#[test]
fn a_database_is_migrated_once() {
    assert_eq!(pending_migrations(0), vec![1]);
    assert!(pending_migrations(1).is_empty());
}

#[test]
fn the_answer_cap_is_half_the_window_within_bounds() {
    assert_eq!(answer_token_budget(None), 2048);
    assert_eq!(answer_token_budget(Some(1024)), 512);
    assert_eq!(answer_token_budget(Some(2000)), 1000);
    assert_eq!(answer_token_budget(Some(100_000)), 2048);
}

#[test]
fn gpu_offload_maps_to_all_or_nothing_layers() {
    assert_eq!(gpu_layers_for(OffloadChoice::Max), -1);
    assert_eq!(gpu_layers_for(OffloadChoice::Off), 0);
    assert_eq!(gpu_layers_for(OffloadChoice::Fraction { positive: true, full: true }), -1);
    assert_eq!(gpu_layers_for(OffloadChoice::Fraction { positive: true, full: false }), 0);
}

#[test]
fn ollama_gets_the_window_the_cap_and_the_layers_per_request() {
    let o = ollama_options(Some(8192), Some(OffloadChoice::Fraction { positive: false, full: false }));
    assert_eq!(o.num_ctx, Some(8192));
    assert_eq!(o.num_predict, 2048);
    assert_eq!(o.num_gpu, Some(0));
    let o = ollama_options(None, Some(OffloadChoice::Max));
    assert_eq!(o.num_gpu, Some(999));
    assert!(ollama_options(None, None).num_gpu.is_none());
}

#[test]
fn lm_studio_treats_a_fraction_as_fully_on() {
    assert_eq!(kv_offload(Some(OffloadChoice::Off)), Some(false));
    let c = lmstudio_config_applied(Some(4096), Some(OffloadChoice::Fraction { positive: true, full: false }));
    assert_eq!(c.gpu_offload_applied.as_deref(), Some("true"));
    assert!(c.requires_reload);
    assert!(c.note.is_some());
    assert!(lmstudio_config_applied(None, Some(OffloadChoice::Off)).note.is_none());
}

#[test]
fn the_model_limits_come_from_the_entry_that_names_the_model() {
    let entries = vec![
        ModelEntry { id: "other.gguf".to_string(), n_ctx: Some(1), n_ctx_train: Some(2), has_meta: true },
        ModelEntry { id: "/models/phi.gguf".to_string(), n_ctx: Some(21760), n_ctx_train: Some(131072), has_meta: true },
    ];
    let l = limits_from_entries(&entries, "phi.gguf");
    assert_eq!(l.max_context, Some(131072));
    assert_eq!(l.current_context, Some(21760));
    let l = limits_from_entries(&entries, "missing");
    assert_eq!(l.max_context, Some(2), "the first entry is the fallback");
    assert!(limits_from_entries(&[], "x").max_context.is_none());

    let info = vec![("general.name".to_string(), None), ("gemma4.context_length".to_string(), Some(8192))];
    assert_eq!(context_length_from_model_info(&info), Some(8192));
}

#[test]
fn installed_models_are_the_gguf_files_with_their_sizes() {
    let files = vec![
        InstalledModel { name: "Qwen2.5-1.5B-Instruct-Q4_K_M.GGUF".to_string(), size_bytes: Some(4096) },
        InstalledModel { name: "model.onnx".to_string(), size_bytes: Some(10) },
        InstalledModel { name: "Phi-3.5-mini-instruct-Q4_K_M.gguf".to_string(), size_bytes: Some(2048) },
    ];

    let models = gguf_models(files);

    assert_eq!(models.len(), 2, "only .gguf files are models");
    assert_eq!(models[0].name, "Phi-3.5-mini-instruct-Q4_K_M.gguf");
    assert_eq!(models[0].size_bytes, Some(2048));
    assert_eq!(models[1].size_bytes, Some(4096), "uppercase .GGUF counts too");
}

#[test]
fn requests_fail_in_the_ways_the_ui_knows() {
    assert!(health_outcome(true).is_ok());
    assert!(matches!(health_outcome(false), Err(ProviderError::Unavailable)));
    assert!(matches!(provider_error_from(true, "x".to_string()), ProviderError::Unavailable));
    assert_eq!(provider_error_from(false, "boom".to_string()).message(), "request failed: boom");
    assert_eq!(ProviderError::Unavailable.message(), "provider unavailable");
    assert!(matches!(EmbeddedClient::new(None, "/m".to_string()).server_url(), Err(ProviderError::Unavailable)));
    assert_eq!(EmbeddedClient::new(Some(8080), "/m".to_string()).server_url().unwrap(), "http://127.0.0.1:8080");
}

#[test]
fn the_database_opens_only_after_onboarding() {
    let mut cfg = AppConfig { base_path: "/dados".to_string(), ..Default::default() };
    assert!(database_to_open(Some(&cfg)).is_none());
    cfg.onboarding_completed = true;
    assert_eq!(database_to_open(Some(&cfg)), Some(db_path("/dados")));
    assert!(database_to_open(None).is_none());
}

#[test]
fn switching_away_from_the_embedded_runtime_stops_its_server() {
    let embedded = Connection {
        id: "e".to_string(),
        provider: "embedded".to_string(),
        base_url: String::new(),
        is_active: true,
        status: ConnectionStatus::Unknown,
    };
    assert!(keeps_embedded_server(Some(&embedded)));
    assert!(!keeps_embedded_server(None));
}
