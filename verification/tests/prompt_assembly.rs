use localmind::budget::Budget;
use localmind::context::{
    budget_chars, fit_history, fit_history_reserving_memory, memory_block, merge_consecutive_turns,
    question_with_context, recall_blocks, source_block, HistoryEntry, MemoryHit, CHARS_PER_TOKEN,
    CONTEXT_PREAMBLE, MEMORY_BUDGET_SHARE, MEMORY_PREAMBLE, MEMORY_TOP_K, TOP_K,
};
use localmind::providers::ChatMessage;
use localmind::ranking::{rank_candidates, Candidate};

/// Distances are kept in whole millionths; a missing score is `None`.
fn millionths(distance: f32) -> Option<u32> {
    if distance.is_nan() {
        None
    } else {
        Some((distance as f64 * 1_000_000.0).round() as u32)
    }
}

fn candidate(namespace: &str, chunk_index: i32, distance: f32) -> Candidate {
    Candidate {
        namespace: namespace.to_string(),
        doc_id: "doc".to_string(),
        chunk_index,
        text: format!("{namespace}#{chunk_index}"),
        distance: millionths(distance),
    }
}

#[test]
fn the_best_match_wins_regardless_of_which_namespace_it_came_from() {
    let ranked = rank_candidates(
        vec![
            candidate("chat:1", 0, 0.30),
            candidate("global", 7, 0.09),
            candidate("chat:1", 1, 0.25),
        ],
        3,
    );

    assert_eq!(ranked[0].namespace, "global");
    assert!(ranked.windows(2).all(|w| w[0].distance <= w[1].distance));
}

#[test]
fn a_passage_far_worse_than_the_best_one_is_dropped() {
    let ranked = rank_candidates(
        vec![
            candidate("global", 0, 0.09),
            candidate("global", 1, 0.20),
            candidate("global", 2, 0.35),
        ],
        4,
    );

    let kept: Vec<i32> = ranked.iter().map(|c| c.chunk_index).collect();
    assert_eq!(kept, vec![0, 1]);
}

#[test]
fn an_exact_match_does_not_disqualify_everything_else() {
    let ranked = rank_candidates(vec![candidate("global", 0, 0.0), candidate("global", 1, 0.08)], 4);
    assert_eq!(ranked.len(), 2);
}

#[test]
fn unscored_chunks_are_kept_and_sorted_last() {
    let ranked = rank_candidates(vec![candidate("global", 1, f32::NAN), candidate("global", 0, 0.09)], 4);
    assert_eq!(ranked.len(), 2);
    assert_eq!(ranked[0].chunk_index, 0);
    assert!(ranked[1].distance.is_none());
}

#[test]
fn ranking_keeps_at_most_top_k() {
    let candidates = (0..10).map(|i| candidate("global", i, 0.09)).collect();
    assert_eq!(rank_candidates(candidates, TOP_K).len(), TOP_K);
}

#[test]
fn the_prompt_budget_reserves_exactly_what_the_answer_is_allowed_to_use() {
    assert_eq!(budget_chars(Some(4096)), 2048 * CHARS_PER_TOKEN, "prompt budget must not overlap the answer budget");
    assert_eq!(budget_chars(Some(21760)), (21760 - 2048) as usize * CHARS_PER_TOKEN);
}

#[test]
fn budget_truncates_instead_of_dropping() {
    let mut budget = Budget { remaining: 10 };
    assert_eq!(budget.take("12345").unwrap(), "12345");
    assert_eq!(budget.take("abcdefghij").unwrap(), "abcde");
    assert!(budget.take("more").is_none());
}

#[test]
fn truncation_never_splits_a_multibyte_character() {
    let mut budget = Budget { remaining: 3 };
    let taken = budget.take("açaí").unwrap();
    assert!(taken.chars().all(|c| "açaí".contains(c)));
}

#[test]
fn an_unanswered_question_does_not_leave_two_user_turns_in_a_row() {
    let merged = merge_consecutive_turns(vec![
        ChatMessage::system("regras"),
        ChatMessage::system("contexto"),
        ChatMessage::user("oi"),
        ChatMessage::user("o que é um banco de dados?"),
    ]);

    let roles: Vec<&str> = merged.iter().map(|m| m.role.as_str()).collect();
    assert_eq!(roles, vec!["system", "user"]);
    assert_eq!(merged[1].content, "oi\n\no que é um banco de dados?");
    assert!(merged[0].content.contains("regras") && merged[0].content.contains("contexto"));
}

fn healthy_conversation() -> Vec<ChatMessage> {
    vec![
        ChatMessage::system("regras"),
        ChatMessage::user("pergunta"),
        ChatMessage { role: "assistant".to_string(), content: "resposta".to_string() },
        ChatMessage::user("outra pergunta"),
    ]
}

#[test]
fn a_healthy_conversation_is_left_exactly_as_it_is() {
    let conversation = healthy_conversation();

    let merged = merge_consecutive_turns(healthy_conversation());

    assert_eq!(merged.len(), conversation.len());
    let roles: Vec<&str> = merged.iter().map(|m| m.role.as_str()).collect();
    assert_eq!(roles, vec!["system", "user", "assistant", "user"]);
}

fn turn(role: &str, content: &str) -> HistoryEntry {
    HistoryEntry {
        id: format!("id-{content}"),
        message: ChatMessage { role: role.to_string(), content: content.to_string() },
    }
}

fn hit(answer_id: &str, text: &str) -> MemoryHit {
    MemoryHit { answer_id: answer_id.to_string(), text: text.to_string() }
}

#[test]
fn a_tight_budget_drops_the_oldest_turns_and_keeps_the_newest() {
    let history = vec![
        turn("user", "pergunta antiga"),
        turn("assistant", "resposta antiga"),
        turn("user", "pergunta recente"),
    ];
    let mut budget = Budget { remaining: 16 };

    let kept = fit_history(history, &mut budget);

    assert_eq!(kept.len(), 1);
    assert_eq!(kept[0].message.content, "pergunta recente");
}

#[test]
fn a_recalled_turn_already_in_the_prompt_does_not_consume_the_cap() {
    let verbatim = vec!["repetida".to_string()];
    let mut budget = Budget { remaining: 10_000 };

    let blocks = recall_blocks(
        vec![
            hit("repetida", "Usuário: com que apelido eu batizei o trabalho?"),
            hit("plantada", "Usuário: guarde este dado\nAssistente: Pantera Cinzenta"),
        ],
        &verbatim,
        &mut budget,
    );

    assert_eq!(blocks.len(), 1, "o turno seguinte tem que ocupar a vaga");
    assert!(blocks[0].contains("Pantera Cinzenta"));
}

#[test]
fn the_memory_never_injects_more_than_its_own_cap() {
    let verbatim: Vec<String> = Vec::new();
    let mut budget = Budget { remaining: 10_000 };

    let blocks = recall_blocks((0..5).map(|i| hit(&format!("t{i}"), "um turno")).collect(), &verbatim, &mut budget);

    assert_eq!(blocks.len(), MEMORY_TOP_K);
}

#[test]
fn a_history_bigger_than_the_budget_still_leaves_the_memory_something() {
    let history: Vec<HistoryEntry> = (0..20).map(|i| turn("user", &format!("{i}{}", "x".repeat(1000)))).collect();
    let mut budget = Budget { remaining: 8192 };

    let kept = fit_history_reserving_memory(history, &mut budget, true);

    assert!(!kept.is_empty(), "the recent turns still come first");
    assert_eq!(
        budget.remaining,
        8192 * MEMORY_BUDGET_SHARE / 100,
        "the reserved slice has to survive a history that would eat everything"
    );
}

#[test]
fn with_memory_off_the_history_still_receives_the_whole_budget() {
    let history: Vec<HistoryEntry> = (0..20).map(|i| turn("user", &format!("{i}{}", "x".repeat(1000)))).collect();
    let mut budget = Budget { remaining: 8192 };

    fit_history_reserving_memory(history, &mut budget, false);

    assert_eq!(budget.remaining, 0);
}

#[test]
fn an_unspent_reservation_returns_to_the_budget() {
    let history = vec![turn("user", "curta"), turn("assistant", "resposta")];
    let mut budget = Budget { remaining: 8192 };

    fit_history_reserving_memory(history, &mut budget, true);

    assert_eq!(budget.remaining, 8192 - "curta".len() - "resposta".len());
}

#[test]
fn history_that_fits_stays_in_chronological_order() {
    let history = vec![turn("user", "primeira"), turn("assistant", "segunda"), turn("user", "terceira")];
    let mut budget = Budget { remaining: 10_000 };

    let kept = fit_history(history, &mut budget);

    let contents: Vec<&str> = kept.iter().map(|m| m.message.content.as_str()).collect();
    assert_eq!(contents, vec!["primeira", "segunda", "terceira"]);
}

#[test]
fn the_retrieved_passages_sit_immediately_above_the_question() {
    let question = question_with_context("continue a frase", &[], &[source_block("codigo.pdf", "Art. 968. A inscrição do")]);

    assert!(question.ends_with("continue a frase"), "a pergunta tem que ser a última coisa que o modelo lê");
    assert!(question.contains("Art. 968. A inscrição do"));
    assert!(question.starts_with(CONTEXT_PREAMBLE));
}

#[test]
fn a_question_without_retrieval_carries_no_preamble() {
    assert_eq!(question_with_context("o que é rust?", &[], &[]), "o que é rust?");
}

#[test]
fn a_recalled_turn_is_never_presented_as_a_document() {
    let question = question_with_context(
        "e o prazo?",
        &[memory_block("Usuário: qual era o prazo?\nAssistente: trinta dias")],
        &[],
    );

    assert!(question.starts_with(MEMORY_PREAMBLE));
    assert!(!question.contains(CONTEXT_PREAMBLE));
    assert!(!question.contains("[fonte:"));
    assert!(question.contains("[conversa anterior]"));
    assert!(question.ends_with("e o prazo?"));
}

#[test]
fn the_document_sits_closer_to_the_question_than_the_recalled_turn() {
    let question = question_with_context(
        "resuma",
        &[memory_block("Usuário: oi\nAssistente: olá")],
        &[source_block("contrato.pdf", "cláusula 4")],
    );

    let memory_at = question.find("[conversa anterior]").unwrap();
    let document_at = question.find("[fonte: contrato.pdf]").unwrap();
    assert!(memory_at < document_at, "a memória fica acima do documento, e o documento colado na pergunta");
}

#[test]
fn with_memory_off_the_prompt_is_exactly_what_it_was_before() {
    let with_documents = question_with_context("pergunta", &[], &[source_block("a.pdf", "trecho")]);
    assert_eq!(with_documents, format!("{CONTEXT_PREAMBLE}\n\n[fonte: a.pdf]\ntrecho\n\n---\n\npergunta"));
}

#[test]
fn every_context_block_names_its_source() {
    let block = source_block("contrato.pdf", "o prazo é de 30 dias");
    assert!(block.starts_with("[fonte: contrato.pdf]"));
    assert!(block.contains("o prazo é de 30 dias"));
}

#[test]
fn a_turn_already_in_the_prompt_is_not_recalled_on_top_of_itself() {
    let verbatim = vec!["answer-1".to_string()];
    let mut budget = Budget { remaining: 10_000 };

    let blocks = recall_blocks(vec![hit("answer-1", "turno recente"), hit("answer-9", "turno antigo")], &verbatim, &mut budget);

    assert_eq!(blocks.len(), 1);
    assert!(blocks[0].contains("turno antigo"));
}

#[test]
fn a_turn_the_budget_dropped_from_the_history_can_be_recalled() {
    let verbatim = vec!["answer-recente".to_string()];
    let mut budget = Budget { remaining: 10_000 };

    let blocks = recall_blocks(vec![hit("answer-antigo", "o prazo é de 30 dias")], &verbatim, &mut budget);

    assert_eq!(blocks.len(), 1);
}

#[test]
fn the_memory_is_what_a_tight_budget_gives_up_first() {
    let verbatim: Vec<String> = Vec::new();
    let mut exhausted = Budget { remaining: 0 };

    let blocks = recall_blocks(vec![hit("a", "qualquer coisa")], &verbatim, &mut exhausted);

    assert!(blocks.is_empty(), "sem orçamento, a memória simplesmente não entra");
}

#[test]
fn context_budget_leaves_room_for_the_answer() {
    let chars = budget_chars(Some(1024));
    assert_eq!(chars, (1024 - 512) * CHARS_PER_TOKEN);
    assert!(budget_chars(Some(100)) == 0, "a tiny window reserves nothing");
}
