use localmind::context::{MEMORY_CANDIDATES, TOP_K};
use localmind::retrieval::{finish_round, plan_round, StoredChunk};

fn hit(doc: &str, index: i32, text: &str, distance: u32) -> StoredChunk {
    StoredChunk { doc_id: doc.to_string(), chunk_index: index, text: text.to_string(), distance: Some(distance) }
}

#[test]
fn the_documents_of_every_namespace_are_ranked_together() {
    let plan = plan_round(
        vec![
            ("global".to_string(), vec![hit("a", 0, "a0", 120_000), hit("a", 1, "a1", 50_000)]),
            ("chat:1".to_string(), vec![hit("b", 3, "b3", 90_000)]),
        ],
        None,
    );
    let order: Vec<(&str, i32)> = plan.documents.iter().map(|c| (c.namespace.as_str(), c.chunk_index)).collect();
    assert_eq!(order, vec![("global", 1), ("chat:1", 3), ("global", 0)]);
    assert!(plan.memory.is_empty());
    assert!(plan.memory_error.is_none());
}

#[test]
fn no_more_than_top_k_passages_are_planned() {
    let hits: Vec<StoredChunk> = (0..10).map(|i| hit("d", i, "t", 100_000)).collect();
    let plan = plan_round(vec![("global".to_string(), hits)], None);
    assert_eq!(plan.documents.len(), TOP_K);
}

#[test]
fn a_failed_memory_search_keeps_the_passages_and_reports_the_error() {
    let plan = plan_round(
        vec![("global".to_string(), vec![hit("a", 0, "a0", 50_000)])],
        Some(("memory:chat".to_string(), Err("tabela ausente".to_string()))),
    );
    assert_eq!(plan.documents.len(), 1);
    assert!(plan.memory.is_empty());
    assert_eq!(plan.memory_error.as_deref(), Some("tabela ausente"));

    let done = finish_round(plan, vec!["notas.txt".to_string()], vec![None], vec![]);
    assert_eq!(done.documents, vec!["[fonte: notas.txt]\na0".to_string()]);
    assert!(done.memory.is_empty());
    assert_eq!(done.memory_error.as_deref(), Some("tabela ausente"));
}

#[test]
fn the_memory_is_ranked_down_to_its_candidate_pool() {
    let recalled: Vec<StoredChunk> = (0..12).map(|i| hit("answer", i * 2, "turn", 80_000)).collect();
    let plan = plan_round(vec![], Some(("memory:chat".to_string(), Ok(recalled))));
    assert!(plan.documents.is_empty());
    assert_eq!(plan.memory.len(), MEMORY_CANDIDATES);
    assert!(plan.memory.iter().all(|c| c.namespace == "memory:chat"));
    assert!(plan.memory_error.is_none());
}

#[test]
fn a_round_appends_only_the_neighbours_not_selected_on_their_own() {
    let plan = plan_round(
        vec![("global".to_string(), vec![hit("a", 0, "a0", 50_000), hit("a", 1, "a1", 60_000), hit("b", 4, "b4", 70_000)])],
        Some(("memory:chat".to_string(), Ok(vec![hit("ans-1", 2, "pergunta e resposta", 40_000)]))),
    );
    let done = finish_round(
        plan,
        vec!["a.txt".to_string(), "a.txt".to_string(), "b.pdf".to_string()],
        vec![Some("a1".to_string()), Some("a2".to_string()), Some("b5".to_string())],
        vec![Some("seguinte".to_string())],
    );
    assert_eq!(
        done.documents,
        vec!["[fonte: a.txt]\na0".to_string(), "[fonte: a.txt]\na1\na2".to_string(), "[fonte: b.pdf]\nb4\nb5".to_string()]
    );
    assert_eq!(done.memory.len(), 1);
    assert_eq!(done.memory[0].answer_id, "ans-1");
    assert_eq!(done.memory[0].text, "pergunta e resposta\nseguinte");
    assert!(done.memory_error.is_none());
}
