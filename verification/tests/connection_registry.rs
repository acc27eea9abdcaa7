use localmind::connections::{ConnectionManager, ConnectionStatus, ModelConfig, ProviderKind, Registry};

fn activate_model(reg: &mut Registry, connection_id: &str) {
    reg.model_configs.push(ModelConfig {
        id: format!("cfg-{connection_id}"),
        connection_id: connection_id.to_string(),
        model_name: "m".to_string(),
        context_length: None,
        gpu_offload: None,
        is_active: true,
    });
}

fn active_model_count(reg: &Registry) -> usize {
    reg.model_configs.iter().filter(|m| m.is_active).count()
}

#[test]
fn create_and_list_connection() {
    let mut reg = Registry::new();
    let created = reg.create_connection("ollama".to_string(), "http://localhost:11434".to_string()).unwrap();
    assert!(!created.is_active);

    let listed = reg.list_connections();
    assert_eq!(listed.len(), 1);
    assert_eq!(listed[0].id, created.id);
    assert!(reg.active_connection().is_none());
}

#[test]
fn activating_a_connection_deactivates_the_previous_one() {
    let mut reg = Registry::new();
    let a = reg.create_connection("ollama".to_string(), "http://a".to_string()).unwrap();
    let b = reg.create_connection("lmstudio".to_string(), "http://b".to_string()).unwrap();

    reg.set_active_connection(&a.id).unwrap();
    assert_eq!(reg.active_connection().unwrap().id, a.id);

    reg.set_active_connection(&b.id).unwrap();
    let listed = reg.list_connections();
    assert_eq!(listed.iter().filter(|c| c.is_active).count(), 1, "exactly one connection may be active");
    assert_eq!(reg.active_connection().unwrap().id, b.id);
}

#[test]
fn switching_connection_drops_a_model_owned_by_another_one() {
    let mut reg = Registry::new();
    let a = reg.create_connection("ollama".to_string(), "http://a".to_string()).unwrap();
    let b = reg.create_connection("lmstudio".to_string(), "http://b".to_string()).unwrap();
    reg.set_active_connection(&a.id).unwrap();
    activate_model(&mut reg, &a.id);

    reg.set_active_connection(&b.id).unwrap();

    assert_eq!(active_model_count(&reg), 0);
}

#[test]
fn clearing_the_active_connection_clears_the_active_model() {
    let mut reg = Registry::new();
    let a = reg.create_connection("ollama".to_string(), "http://a".to_string()).unwrap();
    reg.set_active_connection(&a.id).unwrap();
    activate_model(&mut reg, &a.id);

    reg.clear_active_connection();

    assert!(reg.active_connection().is_none());
    assert_eq!(active_model_count(&reg), 0);
}

#[test]
fn detect_known_connections_returns_ollama_and_lmstudio() {
    let mgr = ConnectionManager::new();
    let candidates = mgr.detect_known_connections();
    assert_eq!(candidates.len(), 2);
    assert!(candidates.iter().any(|c| c.provider == "ollama"));
    assert!(candidates.iter().any(|c| c.provider == "lmstudio"));
}

#[test]
fn activating_an_unknown_connection_is_refused_and_changes_nothing() {
    let mut reg = Registry::new();
    let a = reg.create_connection("ollama".to_string(), "http://a".to_string()).unwrap();
    reg.set_active_connection(&a.id).unwrap();

    let err = reg.set_active_connection("missing").unwrap_err();

    assert_eq!(err, "Conexão não encontrada");
    assert_eq!(reg.active_connection().unwrap().id, a.id);
}

#[test]
fn picking_a_model_activates_its_connection_in_the_same_step() {
    let mut reg = Registry::new();
    let a = reg.create_connection("ollama".to_string(), "http://a".to_string()).unwrap();
    let b = reg.create_connection("lmstudio".to_string(), "http://b".to_string()).unwrap();
    reg.set_active_model(&a.id, "llama3").unwrap();

    reg.set_active_model(&b.id, "qwen").unwrap();

    let pair = reg.active_pair();
    assert_eq!(pair.connection.unwrap().id, b.id);
    let model = pair.model.unwrap();
    assert_eq!(model.connection_id, b.id);
    assert_eq!(model.model_name, "qwen");
    assert_eq!(active_model_count(&reg), 1);
    assert_eq!(reg.model_configs.len(), 2);
}

#[test]
fn a_model_is_configured_once_per_connection() {
    let mut reg = Registry::new();
    let a = reg.create_connection("ollama".to_string(), "http://a".to_string()).unwrap();

    let first = reg.get_or_create_model_config(&a.id, "llama3").unwrap();
    let second = reg.get_or_create_model_config(&a.id, "llama3").unwrap();

    assert_eq!(first, second);
    assert_eq!(reg.model_configs.len(), 1);
}

#[test]
fn the_chat_target_needs_both_a_connection_and_a_model() {
    let mut reg = Registry::new();
    assert_eq!(reg.active_target().unwrap_err(), "Nenhuma conexão ativa — escolha uma em Conexões");

    let a = reg.create_connection("ollama".to_string(), "http://a".to_string()).unwrap();
    reg.set_active_connection(&a.id).unwrap();
    assert_eq!(reg.active_target().unwrap_err(), "Nenhum modelo ativo — escolha um em Conexões");

    reg.set_active_model(&a.id, "llama3").unwrap();
    let target = reg.active_target().unwrap();
    assert_eq!(target.connection.id, a.id);
    assert_eq!(target.model_name, "llama3");
}

#[test]
fn seeding_adds_only_the_missing_runtimes() {
    let mut reg = Registry::new();
    reg.create_connection("ollama".to_string(), "http://localhost:9999".to_string()).unwrap();
    let candidates = ConnectionManager::new().detect_known_connections();

    reg.seed_known_connections(&candidates).unwrap();
    reg.seed_known_connections(&candidates).unwrap();

    let listed = reg.list_connections();
    assert_eq!(listed.len(), 2);
    assert_eq!(listed[0].base_url, "http://localhost:9999");
    assert_eq!(listed[1].provider, "lmstudio");
    assert_eq!(listed[1].status, ConnectionStatus::Unknown);
}

#[test]
fn applied_settings_are_stored_on_the_model() {
    let mut reg = Registry::new();
    let a = reg.create_connection("lmstudio".to_string(), "http://a".to_string()).unwrap();
    let applied = localmind::providers::lmstudio_config_applied(Some(8192), None);

    reg.record_applied_config(&a.id, "qwen", &applied).unwrap();

    assert_eq!(reg.model_configs.len(), 1);
    assert_eq!(reg.model_configs[0].context_length, Some(8192));
    assert_eq!(reg.model_configs[0].gpu_offload, None);
}

#[test]
fn each_provider_name_picks_its_client() {
    let mgr = ConnectionManager::new();
    let mut reg = Registry::new();
    let o = reg.create_connection("ollama".to_string(), "http://a".to_string()).unwrap();
    let l = reg.create_connection("lmstudio".to_string(), "http://b".to_string()).unwrap();
    let c = reg.create_connection("custom".to_string(), "http://c".to_string()).unwrap();
    assert_eq!(mgr.provider_for(&o), ProviderKind::Ollama);
    assert_eq!(mgr.provider_for(&l), ProviderKind::LmStudio);
    assert_eq!(mgr.provider_for(&c), ProviderKind::Custom);
    assert_eq!(mgr.refresh_status(true), ConnectionStatus::Available);
    assert_eq!(mgr.refresh_status(false), ConnectionStatus::Unavailable);
}
