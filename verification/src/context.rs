//! Builds the message list sent to the model: the system prompt, the recent
//! history that fits, and the question with the retrieved passages and the
//! recalled turns attached right above it. Everything but the question is
//! truncated to the budget; the question never is.

use vstd::prelude::*;
use crate::budget::{take_outcome, Budget};
use crate::providers::{answer_token_budget, answer_tokens_for, messages_view, ChatMessage, MessageView, DEFAULT_CONTEXT_TOKENS, ROLE_SYSTEM, ROLE_USER};
use crate::text::{byte_len, utf8_len};
use crate::text::{concat, contains_string, join, join_strings, owned, push_str, reversed, views};

verus! {

/// Rough characters per token used for budgeting.
pub const CHARS_PER_TOKEN: usize = 4;

/// How many retrieved passages the documents may contribute.
pub const TOP_K: usize = 4;

/// How many recent turns are read from the conversation.
pub const RECENT_HISTORY_LIMIT: usize = 20;

/// How many recalled turns the conversation memory may contribute.
pub const MEMORY_TOP_K: usize = 1;

/// How many turns the memory search fetches before anything is discarded.
pub const MEMORY_CANDIDATES: usize = 8;

/// Percentage of the remaining budget withheld from the recent history so the
/// memory has something to spend.
pub const MEMORY_BUDGET_SHARE: usize = 15;

/// How many candidates each namespace contributes before ranking.
pub const PER_NAMESPACE_K: usize = 4;

/// Separates sections and blocks inside the question turn.
pub const SEPARATOR: &'static str = "\n\n---\n\n";

/// Separates a preamble from its blocks.
pub const PARAGRAPH: &'static str = "\n\n";

pub const SYSTEM_PROMPT: &'static str = "Você é um assistente local e privado. Responda apenas o que foi perguntado. Não repita a pergunta, não ofereça ajuda adicional, não comente a própria resposta e não escreva parágrafos de cortesia. Ajuste o tamanho da resposta ao pedido: seja breve numa pergunta objetiva e completo quando pedirem para continuar, transcrever ou detalhar um texto. Diga claramente quando não souber.";

/// Rides with the retrieved passages, never with the base prompt: a model told
/// to cite sources when none were given invents them.
pub const CONTEXT_PREAMBLE: &'static str = "Trechos dos documentos do usuário. Baseie a resposta neles e cite o nome do arquivo indicado em [fonte: ...] ao usar um trecho. Se a resposta não estiver aqui, diga isso.";

/// Recalled turns get their own preamble: a past exchange has no file name to
/// cite.
pub const MEMORY_PREAMBLE: &'static str = "Trechos de mensagens anteriores desta mesma conversa, só para lembrar o que já foi dito. Não são documentos: não os cite como fonte e não os repita se não forem necessários.";

pub const SOURCE_OPEN: &'static str = "[fonte: ";

pub const SOURCE_CLOSE: &'static str = "]\n";

pub const MEMORY_MARKER: &'static str = "[conversa anterior]\n";

pub open spec fn source_block_text(label: Seq<char>, text: Seq<char>) -> Seq<char> {
    SOURCE_OPEN@ + label + SOURCE_CLOSE@ + text
}

pub open spec fn memory_block_text(text: Seq<char>) -> Seq<char> {
    MEMORY_MARKER@ + text
}

/// A retrieved chunk, labelled with the file it came from so the model can
/// cite it and the user can check the answer.
pub fn source_block(label: &str, text: &str) -> (b: String)
    ensures
        b@ == source_block_text(label@, text@),
{
    let mut b = owned(SOURCE_OPEN);
    push_str(&mut b, label);
    push_str(&mut b, SOURCE_CLOSE);
    push_str(&mut b, text);
    b
}

/// A recalled turn. Its marker is deliberately not the `[fonte: ...]` shape, so
/// it never reads as a file that does not exist.
pub fn memory_block(text: &str) -> (b: String)
    ensures
        b@ == memory_block_text(text@),
{
    concat(MEMORY_MARKER, text)
}

/// Prompt bytes for a window of `context_length` tokens: the window minus the
/// answer's own reservation, in characters.
pub open spec fn prompt_chars_for(context_length: Option<u32>) -> nat {
    let total = match context_length {
        Some(c) => c,
        None => DEFAULT_CONTEXT_TOKENS,
    };
    let answer = answer_tokens_for(total);
    if total >= answer {
        ((total - answer) * CHARS_PER_TOKEN) as nat
    } else {
        0
    }
}

/// The room left for the prompt once the answer's tokens are reserved.
pub fn budget_chars(context_length: Option<u32>) -> (n: usize)
    ensures
        n == if prompt_chars_for(context_length) <= usize::MAX {
            prompt_chars_for(context_length)
        } else {
            usize::MAX as nat
        },
{
    let total = match context_length {
        Some(c) => c,
        None => DEFAULT_CONTEXT_TOKENS,
    };
    let usable = total.saturating_sub(answer_token_budget(context_length));
    let usable = usable as usize;
    // Only a 32-bit target could overflow here; the room then is all there is.
    if usable <= usize::MAX / CHARS_PER_TOKEN {
        usable * CHARS_PER_TOKEN
    } else {
        usize::MAX
    }
}

/// The prompt budget and the answer budget never overlap: together they fit
/// in the window (a window smaller than the minimum answer gets no prompt).
pub proof fn lemma_prompt_and_answer_fit_the_window(context_length: Option<u32>)
    ensures
        ({
            let total = match context_length {
                Some(c) => c,
                None => DEFAULT_CONTEXT_TOKENS,
            };
            &&& prompt_chars_for(context_length) / CHARS_PER_TOKEN as nat + answer_tokens_for(total) <= total
                || prompt_chars_for(context_length) == 0
            &&& prompt_chars_for(context_length) % CHARS_PER_TOKEN as nat == 0
        }),
{
}

/// The sections above the question: recalled turns first, documents last, so
/// the documents sit closest to the question.
pub open spec fn question_sections(memory: Seq<Seq<char>>, context: Seq<Seq<char>>) -> Seq<Seq<char>> {
    (if memory.len() > 0 {
        seq![MEMORY_PREAMBLE@ + PARAGRAPH@ + join(memory, SEPARATOR@)]
    } else {
        Seq::empty()
    }) + (if context.len() > 0 {
        seq![CONTEXT_PREAMBLE@ + PARAGRAPH@ + join(context, SEPARATOR@)]
    } else {
        Seq::empty()
    })
}

/// The question turn: the question alone, or the sections followed by it.
pub open spec fn question_text(question: Seq<char>, memory: Seq<Seq<char>>, context: Seq<Seq<char>>) -> Seq<char> {
    let sections = question_sections(memory, context);
    if sections.len() == 0 {
        question
    } else {
        join(sections.push(question), SEPARATOR@)
    }
}

fn section(preamble: &str, blocks: &[String]) -> (s: String)
    ensures
        s@ == preamble@ + PARAGRAPH@ + join(views(blocks@), SEPARATOR@),
{
    let mut s = concat(preamble, PARAGRAPH);
    let joined = join_strings(blocks, SEPARATOR);
    push_str(&mut s, joined.as_str());
    s
}

/// Puts the retrieved passages in the same turn as the question, right above
/// it: a small model answers from what sits next to the question.
pub fn question_with_context(new_message: &str, memory_blocks: &[String], context_blocks: &[String]) -> (q: String)
    ensures
        q@ == question_text(new_message@, views(memory_blocks@), views(context_blocks@)),
{
    let mut sections: Vec<String> = Vec::new();
    if memory_blocks.len() > 0 {
        sections.push(section(MEMORY_PREAMBLE, memory_blocks));
    }
    if context_blocks.len() > 0 {
        sections.push(section(CONTEXT_PREAMBLE, context_blocks));
    }
    let ghost expected = question_sections(views(memory_blocks@), views(context_blocks@));
    assert(views(sections@) =~= expected);
    if sections.len() == 0 {
        return owned(new_message);
    }
    sections.push(owned(new_message));
    assert(views(sections@) =~= expected.push(new_message@));
    join_strings(sections.as_slice(), SEPARATOR)
}

/// The question is always the last thing the model reads.
pub proof fn lemma_question_comes_last(question: Seq<char>, memory: Seq<Seq<char>>, context: Seq<Seq<char>>)
    ensures
        question_text(question, memory, context).len() >= question.len(),
        question_text(question, memory, context).subrange(
            question_text(question, memory, context).len() - question.len(),
            question_text(question, memory, context).len() as int,
        ) == question,
        memory.len() == 0 && context.len() == 0 ==> question_text(question, memory, context) == question,
{
    let sections = question_sections(memory, context);
    if sections.len() > 0 {
        let all = sections.push(question);
        assert(all.drop_last() =~= sections);
        let t = question_text(question, memory, context);
        assert(t == join(sections, SEPARATOR@) + SEPARATOR@ + question);
        assert(t.subrange(t.len() - question.len(), t.len() as int) =~= question);
    } else {
        assert(question.subrange(0, question.len() as int) =~= question);
    }
}

/// Takes each piece in order from the budget, keeping what it gives back.
pub open spec fn spend(remaining: nat, pieces: Seq<Seq<char>>) -> (Seq<Seq<char>>, nat)
    decreases pieces.len(),
{
    if pieces.len() == 0 {
        (Seq::empty(), remaining)
    } else {
        let (kept, left) = spend(remaining, pieces.drop_last());
        let (taken, after) = take_outcome(left, pieces.last());
        match taken {
            Some(p) => (kept.push(p), after),
            None => (kept, after),
        }
    }
}

/// Takes every piece in order from `budget`, keeping whatever it gives back.
pub fn spend_pieces(pieces: &[String], budget: &mut Budget) -> (kept: Vec<String>)
    ensures
        (views(kept@), final(budget).remaining as nat) == spend(old(budget).remaining as nat, views(pieces@)),
{
    let mut kept: Vec<String> = Vec::new();
    let mut i: usize = 0;
    while i < pieces.len()
        invariant
            i <= pieces@.len(),
            (views(kept@), budget.remaining as nat) == spend(old(budget).remaining as nat, views(pieces@).take(i as int)),
        decreases pieces@.len() - i,
    {
        proof {
            let ps = views(pieces@).take(i + 1);
            assert(ps.drop_last() =~= views(pieces@).take(i as int));
            assert(ps.last() == pieces@[i as int]@);
        }
        let taken = budget.take(pieces[i].as_str());
        match taken {
            Some(p) => {
                kept.push(p);
                assert(views(kept@) =~= views(kept@).drop_last().push(kept@.last()@));
            },
            None => {},
        }
        proof {
            let ps = views(pieces@).take(i + 1);
            assert(views(kept@) =~= spend(old(budget).remaining as nat, ps).0);
        }
        i = i + 1;
    }
    assert(views(pieces@).take(pieces@.len() as int) =~= views(pieces@));
    kept
}

/// A history message together with its id; the id is what the memory layer
/// deduplicates against.
#[derive(Debug)]
pub struct HistoryEntry {
    pub id: String,
    pub message: ChatMessage,
}

pub struct TurnView {
    pub id: Seq<char>,
    pub role: Seq<char>,
    pub content: Seq<char>,
}

impl View for HistoryEntry {
    type V = TurnView;

    open spec fn view(&self) -> TurnView {
        TurnView { id: self.id@, role: self.message.role@, content: self.message.content@ }
    }
}

pub open spec fn turns_view(h: Seq<HistoryEntry>) -> Seq<TurnView> {
    h.map_values(|e: HistoryEntry| e@)
}

/// The newest turns that fit, oldest first, and what is left of the budget.
/// Walks from the newest turn back and stops at the first one the budget gives
/// nothing for; the oldest kept turn may be truncated.
pub open spec fn fit_turns(h: Seq<TurnView>, remaining: nat) -> (Seq<TurnView>, nat)
    decreases h.len(),
{
    if h.len() == 0 {
        (Seq::empty(), remaining)
    } else {
        let last = h.last();
        let (taken, after) = take_outcome(remaining, last.content);
        match taken {
            None => (Seq::empty(), after),
            Some(c) => {
                let (older, left) = fit_turns(h.drop_last(), after);
                (older.push(TurnView { id: last.id, role: last.role, content: c }), left)
            },
        }
    }
}

/// Keeps the newest turns and drops the oldest when the budget runs out.
pub fn fit_history(history: Vec<HistoryEntry>, budget: &mut Budget) -> (kept: Vec<HistoryEntry>)
    ensures
        (turns_view(kept@), final(budget).remaining as nat) == fit_turns(turns_view(history@), old(budget).remaining as nat),
{
    let ghost whole = turns_view(history@);
    let ghost start = budget.remaining as nat;
    let mut history = history;
    let mut newest_first: Vec<HistoryEntry> = Vec::new();
    let mut stopped = false;
    while !stopped && history.len() > 0
        invariant
            history@.len() <= whole.len(),
            !stopped ==> fit_turns(whole, start) == (
                fit_turns(turns_view(history@), budget.remaining as nat).0 + turns_view(newest_first@).reverse(),
                fit_turns(turns_view(history@), budget.remaining as nat).1,
            ),
            stopped ==> fit_turns(whole, start) == (turns_view(newest_first@).reverse(), budget.remaining as nat),
        decreases history@.len(), (if stopped { 0int } else { 1int }),
    {
        let ghost before = turns_view(history@);
        let ghost nf_before = turns_view(newest_first@);
        let ghost r_before = budget.remaining as nat;
        let entry = history.pop().unwrap();
        proof {
            assert(before.drop_last() =~= turns_view(history@));
            assert(before.last() == entry@);
        }
        let HistoryEntry { id, message } = entry;
        let ChatMessage { role, content } = message;
        match budget.take(content.as_str()) {
            None => {
                stopped = true;
                assert(fit_turns(before, r_before).0 =~= Seq::<TurnView>::empty());
                assert(Seq::<TurnView>::empty() + nf_before =~= nf_before);
            },
            Some(taken) => {
                newest_first.push(HistoryEntry { id, message: ChatMessage { role, content: taken } });
                proof {
                    let x = newest_first@.last()@;
                    assert(turns_view(newest_first@) =~= nf_before.push(x));
                    assert(nf_before.push(x).reverse() =~= seq![x] + nf_before.reverse());
                    let (older, left) = fit_turns(turns_view(history@), budget.remaining as nat);
                    assert(older.push(x) + nf_before.reverse() =~= older + (seq![x] + nf_before.reverse()));
                }
            },
        }
    }
    proof {
        if !stopped {
            assert(turns_view(history@) =~= Seq::<TurnView>::empty());
            assert(Seq::<TurnView>::empty() + turns_view(newest_first@).reverse() =~= turns_view(newest_first@).reverse());
        }
    }
    let kept = reversed(newest_first);
    assert(turns_view(kept@) =~= turns_view(newest_first@).reverse());
    kept
}

/// The recent turns keep their order and only the newest ones survive: what
/// fits is the tail of the history, every kept turn but the oldest is whole,
/// and the budget never grows.
pub proof fn lemma_fit_keeps_the_newest_turns(h: Seq<TurnView>, remaining: nat)
    ensures
        ({
            let (kept, left) = fit_turns(h, remaining);
            &&& kept.len() <= h.len()
            &&& left <= remaining
            &&& forall|i: int| 0 <= i < kept.len() ==> {
                let j = h.len() - kept.len() + i;
                &&& #[trigger] kept[i].id == h[j].id
                &&& kept[i].role == h[j].role
                &&& (i > 0 ==> kept[i].content == h[j].content)
            }
        }),
    decreases h.len(),
{
    if h.len() > 0 {
        let last = h.last();
        let (taken, after) = take_outcome(remaining, last.content);
        crate::budget::lemma_take_within_budget(remaining, last.content);
        match taken {
            None => {
                assert(fit_turns(h, remaining).0.len() == 0);
            },
            Some(c) => {
                lemma_fit_keeps_the_newest_turns(h.drop_last(), after);
                let (older, left) = fit_turns(h.drop_last(), after);
                let kept = fit_turns(h, remaining).0;
                assert(older.len() <= h.len() - 1);
                assert(left <= after && after <= remaining);
                assert(fit_turns(h, remaining).1 == left);
                let newest = TurnView { id: last.id, role: last.role, content: c };
                assert(kept == older.push(newest));
                if older.len() > 0 {
                    // An empty budget keeps nothing, so the newest turn was taken whole.
                    assert(after > 0) by {
                        if after == 0 {
                            let hd = h.drop_last();
                            assert(take_outcome(0, hd.last().content).0 is None);
                        }
                    };
                    assert(c == last.content);
                }
                assert forall|i: int| 0 <= i < kept.len() implies {
                    let j = h.len() - kept.len() + i;
                    &&& #[trigger] kept[i].id == h[j].id
                    &&& kept[i].role == h[j].role
                    &&& (i > 0 ==> kept[i].content == h[j].content)
                } by {
                    let j = h.len() - kept.len() + i;
                    if i < older.len() {
                        assert(kept[i] == older[i]);
                        let k = h.drop_last().len() - older.len() + i;
                        assert(older[i].id == h.drop_last()[k].id);
                        assert(h.drop_last()[k] == h[j]);
                    } else {
                        assert(kept[i] == newest);
                        assert(j == h.len() - 1);
                    }
                }
            },
        }
    }
}

/// The slice of `remaining` withheld for the memory.
pub open spec fn memory_reservation(remaining: nat, use_memory: bool) -> nat {
    if use_memory {
        remaining * MEMORY_BUDGET_SHARE as nat / 100
    } else {
        0
    }
}

/// Fits the history while holding `MEMORY_BUDGET_SHARE` percent of the budget
/// back for the memory, then returns the unspent remainder to the budget. A
/// chat without memory builds exactly the prompt it built without the
/// reservation.
pub fn fit_history_reserving_memory(history: Vec<HistoryEntry>, budget: &mut Budget, use_memory: bool) -> (kept: Vec<HistoryEntry>)
    requires
        use_memory ==> old(budget).remaining * MEMORY_BUDGET_SHARE <= usize::MAX,
    ensures
        ({
            let reserved = memory_reservation(old(budget).remaining as nat, use_memory);
            let (fitted, left) = fit_turns(turns_view(history@), (old(budget).remaining - reserved) as nat);
            &&& turns_view(kept@) == fitted
            &&& final(budget).remaining == left + reserved
        }),
{
    let reserved = if use_memory {
        budget.remaining * MEMORY_BUDGET_SHARE / 100
    } else {
        0
    };
    budget.remaining = budget.remaining - reserved;
    let kept = fit_history(history, budget);
    proof {
        lemma_fit_keeps_the_newest_turns(turns_view(history@), (old(budget).remaining - reserved) as nat);
    }
    budget.remaining = budget.remaining + reserved;
    kept
}

/// Without memory the reservation changes nothing; with it, what is left for
/// the memory is never less than the reserved slice, whatever the history.
pub proof fn lemma_reservation_is_returned(h: Seq<TurnView>, remaining: nat, use_memory: bool)
    ensures
        !use_memory ==> (fit_turns(h, (remaining - memory_reservation(remaining, use_memory)) as nat).0,
            fit_turns(h, (remaining - memory_reservation(remaining, use_memory)) as nat).1 + memory_reservation(remaining, use_memory))
            == fit_turns(h, remaining),
        fit_turns(h, (remaining - memory_reservation(remaining, use_memory)) as nat).1 + memory_reservation(remaining, use_memory)
            >= memory_reservation(remaining, use_memory),
        memory_reservation(remaining, use_memory) <= remaining,
{
}

/// A recalled exchange, carrying the id of the answer it came from so it can
/// be dropped when that turn is already in the prompt verbatim.
#[derive(Debug)]
pub struct MemoryHit {
    pub answer_id: String,
    pub text: String,
}

pub struct HitView {
    pub answer_id: Seq<char>,
    pub text: Seq<char>,
}

impl View for MemoryHit {
    type V = HitView;

    open spec fn view(&self) -> HitView {
        HitView { answer_id: self.answer_id@, text: self.text@ }
    }
}

pub open spec fn hits_view(h: Seq<MemoryHit>) -> Seq<HitView> {
    h.map_values(|x: MemoryHit| x@)
}

/// The hits whose answer is not already in the prompt, in order.
pub open spec fn unquoted(hits: Seq<HitView>, verbatim: Seq<Seq<char>>) -> Seq<HitView>
    decreases hits.len(),
{
    if hits.len() == 0 {
        Seq::empty()
    } else {
        let earlier = unquoted(hits.drop_last(), verbatim);
        if verbatim.contains(hits.last().answer_id) {
            earlier
        } else {
            earlier.push(hits.last())
        }
    }
}

/// The memory blocks offered to the budget: the first `MEMORY_TOP_K` hits not
/// already quoted, each as a memory block.
pub open spec fn recall_candidates(hits: Seq<HitView>, verbatim: Seq<Seq<char>>) -> Seq<Seq<char>> {
    let fresh = unquoted(hits, verbatim);
    let chosen = if fresh.len() > MEMORY_TOP_K { fresh.take(MEMORY_TOP_K as int) } else { fresh };
    chosen.map_values(|h: HitView| memory_block_text(h.text))
}

pub proof fn lemma_unquoted_step(hits: Seq<HitView>, verbatim: Seq<Seq<char>>, i: int)
    requires
        0 <= i < hits.len(),
    ensures
        unquoted(hits.take(i + 1), verbatim) == if verbatim.contains(hits[i].answer_id) {
            unquoted(hits.take(i), verbatim)
        } else {
            unquoted(hits.take(i), verbatim).push(hits[i])
        },
{
    assert(hits.take(i + 1).drop_last() =~= hits.take(i));
}

pub proof fn lemma_unquoted_never_quoted(hits: Seq<HitView>, verbatim: Seq<Seq<char>>)
    ensures
        unquoted(hits, verbatim).len() <= hits.len(),
        forall|i: int| 0 <= i < unquoted(hits, verbatim).len() ==> !verbatim.contains(#[trigger] unquoted(hits, verbatim)[i].answer_id),
    decreases hits.len(),
{
    if hits.len() > 0 {
        lemma_unquoted_never_quoted(hits.drop_last(), verbatim);
    }
}

proof fn lemma_quoted_prefix(hits: Seq<HitView>, verbatim: Seq<Seq<char>>, k: int)
    requires
        0 <= k <= hits.len(),
        forall|j: int| 0 <= j < k ==> verbatim.contains((#[trigger] hits[j]).answer_id),
    ensures
        unquoted(hits.take(k), verbatim).len() == 0,
    decreases k,
{
    if k == 0 {
        assert(hits.take(0) =~= Seq::<HitView>::empty());
    } else {
        lemma_quoted_prefix(hits, verbatim, k - 1);
        lemma_unquoted_step(hits, verbatim, k - 1);
    }
}

proof fn lemma_fresh_hit_stays_first(hits: Seq<HitView>, verbatim: Seq<Seq<char>>, i: int, n: int)
    requires
        0 <= i < n <= hits.len(),
        !verbatim.contains(hits[i].answer_id),
        forall|j: int| 0 <= j < i ==> verbatim.contains((#[trigger] hits[j]).answer_id),
    ensures
        unquoted(hits.take(n), verbatim).len() >= 1,
        unquoted(hits.take(n), verbatim)[0] == hits[i],
    decreases n - i,
{
    if n == i + 1 {
        lemma_quoted_prefix(hits, verbatim, i);
        lemma_unquoted_step(hits, verbatim, i);
    } else {
        lemma_fresh_hit_stays_first(hits, verbatim, i, n - 1);
        lemma_unquoted_step(hits, verbatim, n - 1);
    }
}

/// The best-ranked hit whose answer is not already quoted is always the first
/// memory block offered: hits ranked before it are all quoted, so it leads.
pub proof fn lemma_best_fresh_hit_leads(hits: Seq<HitView>, verbatim: Seq<Seq<char>>, i: int)
    requires
        0 <= i < hits.len(),
        !verbatim.contains(hits[i].answer_id),
        forall|j: int| 0 <= j < i ==> verbatim.contains((#[trigger] hits[j]).answer_id),
    ensures
        recall_candidates(hits, verbatim).len() >= 1,
        recall_candidates(hits, verbatim)[0] == memory_block_text(hits[i].text),
{
    lemma_fresh_hit_stays_first(hits, verbatim, i, hits.len() as int);
    assert(hits.take(hits.len() as int) =~= hits);
}

/// Turns the recalled hits into prompt blocks, dropping the ones already in the
/// prompt verbatim, capping what survives at `MEMORY_TOP_K`, and stopping when
/// the budget runs out. The cap applies after the filter, so a duplicate never
/// costs the layer its slot.
pub fn recall_blocks(recalled: Vec<MemoryHit>, verbatim: &[String], budget: &mut Budget) -> (blocks: Vec<String>)
    ensures
        (views(blocks@), final(budget).remaining as nat) == spend(
            old(budget).remaining as nat,
            recall_candidates(hits_view(recalled@), views(verbatim@)),
        ),
{
    let ghost hv = hits_view(recalled@);
    let ghost vb = views(verbatim@);
    let mut fresh: Vec<String> = Vec::new();
    let mut i: usize = 0;
    while i < recalled.len()
        invariant
            hv == hits_view(recalled@),
            vb == views(verbatim@),
            i <= recalled@.len(),
            views(fresh@) == unquoted(hv.take(i as int), vb).map_values(|h: HitView| memory_block_text(h.text)),
        decreases recalled@.len() - i,
    {
        proof {
            lemma_unquoted_step(hv, vb, i as int);
            assert(hv[i as int] == recalled@[i as int]@);
        }
        let quoted = contains_string(verbatim, recalled[i].answer_id.as_str());
        if !quoted {
            let block = memory_block(recalled[i].text.as_str());
            let ghost before = views(fresh@);
            fresh.push(block);
            assert(views(fresh@) =~= before.push(block@));
        }
        proof {
            let u = unquoted(hv.take(i + 1), vb);
            assert(views(fresh@) =~= u.map_values(|h: HitView| memory_block_text(h.text)));
        }
        i = i + 1;
    }
    assert(hv.take(recalled@.len() as int) =~= hv);
    let ghost all_fresh = views(fresh@);
    if fresh.len() > MEMORY_TOP_K {
        fresh.truncate(MEMORY_TOP_K);
        assert(views(fresh@) =~= all_fresh.take(MEMORY_TOP_K as int));
    }
    proof {
        let u = unquoted(hv, vb);
        let mapped = u.map_values(|h: HitView| memory_block_text(h.text));
        assert(all_fresh == mapped);
        if u.len() > MEMORY_TOP_K {
            assert(u.take(MEMORY_TOP_K as int).map_values(|h: HitView| memory_block_text(h.text))
                =~= mapped.take(MEMORY_TOP_K as int));
        }
    }
    spend_pieces(fresh.as_slice(), budget)
}

/// Nothing already quoted is recalled, and never more than the cap.
pub proof fn lemma_recall_respects_cap_and_quotes(hits: Seq<HitView>, verbatim: Seq<Seq<char>>, remaining: nat)
    ensures
        recall_candidates(hits, verbatim).len() <= MEMORY_TOP_K,
        spend(remaining, recall_candidates(hits, verbatim)).0.len() <= MEMORY_TOP_K,
        remaining == 0 ==> spend(remaining, recall_candidates(hits, verbatim)).0.len() == 0,
{
    lemma_spend_bounds(remaining, recall_candidates(hits, verbatim));
}

/// Spending keeps at most one block per piece, never grows the budget, and an
/// empty budget keeps nothing.
pub proof fn lemma_spend_bounds(remaining: nat, pieces: Seq<Seq<char>>)
    ensures
        spend(remaining, pieces).0.len() <= pieces.len(),
        spend(remaining, pieces).1 <= remaining,
        remaining == 0 ==> spend(remaining, pieces).0.len() == 0 && spend(remaining, pieces).1 == 0,
    decreases pieces.len(),
{
    if pieces.len() > 0 {
        lemma_spend_bounds(remaining, pieces.drop_last());
        let left = spend(remaining, pieces.drop_last()).1;
        crate::budget::lemma_take_within_budget(left, pieces.last());
    }
}

/// Consecutive turns of the same role folded into one, their contents joined by
/// a blank line; every other turn left as it is.
pub open spec fn merged(ms: Seq<MessageView>) -> Seq<MessageView>
    decreases ms.len(),
{
    if ms.len() == 0 {
        Seq::empty()
    } else {
        let m = merged(ms.drop_last());
        let x = ms.last();
        if m.len() > 0 && m.last().role == x.role {
            m.update(
                m.len() - 1,
                MessageView { role: x.role, content: m.last().content + PARAGRAPH@ + x.content },
            )
        } else {
            m.push(x)
        }
    }
}

/// Chat templates assume the roles alternate. A cancelled or failed generation
/// leaves a question with no answer after it, so later requests would carry two
/// `user` turns in a row; merging keeps every word while restoring the
/// alternation.
pub fn merge_consecutive_turns(messages: Vec<ChatMessage>) -> (out: Vec<ChatMessage>)
    ensures
        messages_view(out@) == merged(messages_view(messages@)),
{
    let ghost all = messages_view(messages@);
    let n = messages.len();
    let mut pending = reversed(messages);
    let mut out: Vec<ChatMessage> = Vec::new();
    let mut i: usize = 0;
    while pending.len() > 0
        invariant
            all.len() == n,
            i <= n,
            pending@.len() == n - i,
            messages_view(pending@).reverse() == all.skip(i as int),
            messages_view(out@) == merged(all.take(i as int)),
        decreases pending@.len(),
    {
        let ghost pv = messages_view(pending@);
        let message = pending.pop().unwrap();
        proof {
            assert(pv.reverse()[0] == pv.last());
            assert(pv.last() == message@);
            assert(all.skip(i as int)[0] == all[i as int]);
            assert(messages_view(pending@) =~= pv.drop_last());
            assert(pv.drop_last().reverse() =~= pv.reverse().drop_first());
            assert(all.skip(i as int).drop_first() =~= all.skip(i + 1));
            assert(messages_view(pending@).reverse() =~= all.skip(i + 1));
            assert(all.take(i + 1).drop_last() =~= all.take(i as int));
            assert(all.take(i + 1).last() == message@);
        }
        let ghost ov = messages_view(out@);
        let same_role = out.len() > 0 && out[out.len() - 1].role == message.role;
        if same_role {
            let mut previous = out.pop().unwrap();
            push_str(&mut previous.content, PARAGRAPH);
            push_str(&mut previous.content, message.content.as_str());
            out.push(previous);
            assert(messages_view(out@) =~= ov.update(ov.len() - 1, MessageView {
                role: message@.role,
                content: ov.last().content + PARAGRAPH@ + message@.content,
            }));
        } else {
            out.push(message);
            assert(messages_view(out@) =~= ov.push(out@.last()@));
        }
        i = i + 1;
    }
    assert(all.take(n as int) =~= all);
    out
}

/// No two neighbouring turns share a role after merging.
pub proof fn lemma_merged_alternates(ms: Seq<MessageView>)
    ensures
        merged(ms).len() <= ms.len(),
        ms.len() > 0 ==> merged(ms).len() > 0 && merged(ms).last().role == ms.last().role,
        forall|i: int| 0 <= i < merged(ms).len() - 1 ==> #[trigger] merged(ms)[i].role != merged(ms)[i + 1].role,
    decreases ms.len(),
{
    if ms.len() > 0 {
        lemma_merged_alternates(ms.drop_last());
        let m = merged(ms.drop_last());
        let r = merged(ms);
        assert forall|i: int| 0 <= i < r.len() - 1 implies #[trigger] r[i].role != r[i + 1].role by {
            if i + 1 < m.len() {
                assert(m[i].role != m[i + 1].role);
            }
        }
    }
}

/// Merging never changes the role of the last turn, and the last turn still
/// ends with everything the last input turn said.
pub proof fn lemma_merged_keeps_the_last_turn(ms: Seq<MessageView>)
    requires
        ms.len() > 0,
    ensures
        merged(ms).len() > 0,
        merged(ms).last().role == ms.last().role,
        merged(ms).last().content.len() >= ms.last().content.len(),
        merged(ms).last().content.subrange(
            merged(ms).last().content.len() - ms.last().content.len(),
            merged(ms).last().content.len() as int,
        ) == ms.last().content,
{
    lemma_merged_alternates(ms);
    let m = merged(ms.drop_last());
    let x = ms.last();
    let c = merged(ms).last().content;
    if m.len() > 0 && m.last().role == x.role {
        assert(c == m.last().content + PARAGRAPH@ + x.content);
        assert(c.subrange(c.len() - x.content.len(), c.len() as int) =~= x.content);
    } else {
        assert(c.subrange(0, c.len() as int) =~= c);
    }
}

/// A conversation whose roles already alternate is left exactly as it is.
pub proof fn lemma_merged_keeps_alternating_turns(ms: Seq<MessageView>)
    requires
        forall|i: int| 0 <= i < ms.len() - 1 ==> #[trigger] ms[i].role != ms[i + 1].role,
    ensures
        merged(ms) == ms,
    decreases ms.len(),
{
    if ms.len() > 0 {
        let p = ms.drop_last();
        assert forall|i: int| 0 <= i < p.len() - 1 implies #[trigger] p[i].role != p[i + 1].role by {
            assert(ms[i].role != ms[i + 1].role);
        }
        lemma_merged_keeps_alternating_turns(p);
        if p.len() > 0 {
            assert(ms[p.len() - 1].role != ms[p.len() as int].role);
        }
        assert(merged(ms) =~= ms);
    }
}

/// The prompt plus what went wrong building it: a failed retrieval still lets
/// the answer go out, and the user is told the knowledge base did not take part.
pub struct Assembled {
    pub messages: Vec<ChatMessage>,
    pub retrieval_error: Option<String>,
}

/// A whole small attachment: its file name and extracted text.
pub struct Attachment {
    pub filename: String,
    pub text: String,
}

pub open spec fn attachment_blocks(a: Seq<Attachment>) -> Seq<Seq<char>> {
    a.map_values(|x: Attachment| source_block_text(x.filename@, x.text@))
}

/// Bytes available before anything but the question is added.
pub open spec fn initial_room(question: Seq<char>, context_length: Option<u32>) -> nat {
    let room = if prompt_chars_for(context_length) <= usize::MAX { prompt_chars_for(context_length) } else { usize::MAX as nat };
    if room >= utf8_len(question) { (room - utf8_len(question)) as nat } else { 0 }
}

/// Budget left once the attachments are in: retrieval only runs when this is
/// not zero.
pub open spec fn room_after_attachments(question: Seq<char>, context_length: Option<u32>, attachments: Seq<Attachment>) -> nat {
    spend(initial_room(question, context_length), attachment_blocks(attachments)).1
}

pub open spec fn turn_message(t: TurnView) -> MessageView {
    MessageView { role: t.role, content: t.content }
}

pub open spec fn turn_ids(ts: Seq<TurnView>) -> Seq<Seq<char>> {
    ts.map_values(|t: TurnView| t.id)
}

/// The whole prompt: the system prompt, the newest history that fits after the
/// documents (with a slice held back for the memory), and the question with the
/// recalled turns and the passages right above it; consecutive turns of one
/// role merged.
///
/// Attachments are served first, then the retrieved documents, then the recent
/// history, and the memory last. Documents and memory only take part when the
/// attachments left room for retrieval; recalled turns already quoted in the
/// kept history are skipped.
pub open spec fn assembled_prompt(
    question: Seq<char>,
    context_length: Option<u32>,
    attachments: Seq<Attachment>,
    documents: Seq<Seq<char>>,
    recalled: Seq<HitView>,
    history: Seq<TurnView>,
    use_memory: bool,
) -> Seq<MessageView> {
    let r0 = initial_room(question, context_length);
    let (attached, r1) = spend(r0, attachment_blocks(attachments));
    let (retrieved, r2) = if r1 > 0 { spend(r1, documents) } else { (Seq::empty(), r1) };
    let hits = if r1 > 0 && use_memory { recalled } else { Seq::empty() };
    let reserved = memory_reservation(r2, use_memory);
    let (kept, r3) = fit_turns(history, (r2 - reserved) as nat);
    let (memory, _) = spend(r3 + reserved, recall_candidates(hits, turn_ids(kept)));
    merged(
        seq![MessageView { role: ROLE_SYSTEM@, content: SYSTEM_PROMPT@ }]
            + kept.map_values(|t: TurnView| turn_message(t))
            + seq![MessageView { role: ROLE_USER@, content: question_text(question, memory, attached + retrieved) }],
    )
}

fn starting_budget(new_message: &str, context_length: Option<u32>) -> (b: Budget)
    ensures
        b.remaining == initial_room(new_message@, context_length),
{
    Budget { remaining: budget_chars(context_length).saturating_sub(byte_len(new_message)) }
}

fn attachment_block_list(attachments: &[Attachment]) -> (blocks: Vec<String>)
    ensures
        views(blocks@) == attachment_blocks(attachments@),
{
    let mut blocks: Vec<String> = Vec::new();
    let mut i: usize = 0;
    while i < attachments.len()
        invariant
            i <= attachments@.len(),
            views(blocks@) == attachment_blocks(attachments@).take(i as int),
        decreases attachments@.len() - i,
    {
        let b = source_block(attachments[i].filename.as_str(), attachments[i].text.as_str());
        let ghost before = views(blocks@);
        blocks.push(b);
        assert(views(blocks@) =~= before.push(b@));
        assert(attachment_blocks(attachments@).take(i + 1) =~= attachment_blocks(attachments@).take(i as int).push(
            source_block_text(attachments@[i as int].filename@, attachments@[i as int].text@)));
        i = i + 1;
    }
    assert(attachment_blocks(attachments@).take(attachments@.len() as int) =~= attachment_blocks(attachments@));
    blocks
}

/// Whether retrieval can still add anything once the attachments are in;
/// embedding the question otherwise would download a model for nothing.
pub fn wants_retrieval(new_message: &str, context_length: Option<u32>, attachments: &[Attachment]) -> (wants: bool)
    ensures
        wants == (room_after_attachments(new_message@, context_length, attachments@) > 0),
{
    let mut budget = starting_budget(new_message, context_length);
    let blocks = attachment_block_list(attachments);
    let _ = spend_pieces(blocks.as_slice(), &mut budget);
    budget.remaining > 0
}

fn ids_of(kept: &Vec<HistoryEntry>) -> (ids: Vec<String>)
    ensures
        views(ids@) == turn_ids(turns_view(kept@)),
{
    let mut ids: Vec<String> = Vec::new();
    let mut i: usize = 0;
    while i < kept.len()
        invariant
            i <= kept@.len(),
            views(ids@) == turn_ids(turns_view(kept@)).take(i as int),
        decreases kept@.len() - i,
    {
        let ghost before = views(ids@);
        let id = owned(kept[i].id.as_str());
        ids.push(id);
        assert(views(ids@) =~= before.push(id@));
        assert(turn_ids(turns_view(kept@)).take(i + 1) =~= turn_ids(turns_view(kept@)).take(i as int).push(kept@[i as int].id@));
        i = i + 1;
    }
    assert(turn_ids(turns_view(kept@)).take(kept@.len() as int) =~= turn_ids(turns_view(kept@)));
    ids
}

/// Builds the final message list from what the database and the retrieval
/// produced: `attachments` are the chat's whole small attachments, `documents`
/// the retrieved passages already labelled with their source, `recalled` the
/// conversation memory's hits, and `history` the recent turns oldest first.
/// The question is never truncated; everything else is.
pub fn assemble_messages(
    new_message: &str,
    context_length: Option<u32>,
    attachments: &[Attachment],
    documents: &[String],
    recalled: Vec<MemoryHit>,
    history: Vec<HistoryEntry>,
    use_memory: bool,
) -> (messages: Vec<ChatMessage>)
    requires
        use_memory ==> prompt_chars_for(context_length) * MEMORY_BUDGET_SHARE <= usize::MAX,
    ensures
        messages_view(messages@) == assembled_prompt(
            new_message@,
            context_length,
            attachments@,
            views(documents@),
            hits_view(recalled@),
            turns_view(history@),
            use_memory,
        ),
{
    let mut budget = starting_budget(new_message, context_length);
    let attachment_list = attachment_block_list(attachments);
    let mut context_blocks = spend_pieces(attachment_list.as_slice(), &mut budget);
    let ghost attached = views(context_blocks@);
    let retrieval_ran = budget.remaining > 0;
    let hits = if retrieval_ran && use_memory { recalled } else { Vec::new() };
    if retrieval_ran {
        let retrieved = spend_pieces(documents, &mut budget);
        let ghost r = views(retrieved@);
        let mut retrieved = retrieved;
        context_blocks.append(&mut retrieved);
        assert(views(context_blocks@) =~= attached + r);
    } else {
        assert(views(context_blocks@) =~= attached + Seq::<Seq<char>>::empty());
    }
    let ghost r2 = budget.remaining as nat;
    assert(r2 <= initial_room(new_message@, context_length)) by {
        lemma_spend_bounds(initial_room(new_message@, context_length), attachment_blocks(attachments@));
        if retrieval_ran {
            lemma_spend_bounds(room_after_attachments(new_message@, context_length, attachments@), views(documents@));
        }
    };
    let kept = fit_history_reserving_memory(history, &mut budget, use_memory);
    let verbatim = ids_of(&kept);
    let ghost r3 = budget.remaining as nat;
    let memory_blocks = recall_blocks(hits, verbatim.as_slice(), &mut budget);
    let question = question_with_context(new_message, memory_blocks.as_slice(), context_blocks.as_slice());
    proof {
        let q = new_message@;
        let r0 = initial_room(q, context_length);
        let (attached_s, r1) = spend(r0, attachment_blocks(attachments@));
        assert(attached == attached_s);
        assert(retrieval_ran == (r1 > 0));
        let (retrieved_s, r2s) = if r1 > 0 { spend(r1, views(documents@)) } else { (Seq::empty(), r1) };
        assert(r2 == r2s);
        assert(views(context_blocks@) == attached_s + retrieved_s);
        let hits_s = if r1 > 0 && use_memory { hits_view(recalled@) } else { Seq::empty() };
        assert(hits_view(hits@) == hits_s);
        let reserved = memory_reservation(r2s, use_memory);
        let (kept_s, r3s) = fit_turns(turns_view(history@), (r2s - reserved) as nat);
        assert(turns_view(kept@) == kept_s);
        assert(r3 == r3s + reserved);
        let (memory_s, _) = spend(r3s + reserved, recall_candidates(hits_s, turn_ids(kept_s)));
        assert(views(memory_blocks@) == memory_s);
        assert(question@ == question_text(q, memory_s, attached_s + retrieved_s));
    }
    let ghost kept_turns = turns_view(kept@);
    let mut messages: Vec<ChatMessage> = Vec::new();
    messages.push(ChatMessage::system(SYSTEM_PROMPT));
    let mut kept = kept;
    let mut rest = reversed(kept);
    let n = rest.len();
    let mut i: usize = 0;
    while rest.len() > 0
        invariant
            kept_turns.len() == n,
            i <= n,
            rest@.len() == n - i,
            turns_view(rest@).reverse() == kept_turns.skip(i as int),
            messages_view(messages@) == seq![MessageView { role: ROLE_SYSTEM@, content: SYSTEM_PROMPT@ }]
                + kept_turns.take(i as int).map_values(|t: TurnView| turn_message(t)),
        decreases rest@.len(),
    {
        let ghost rv = turns_view(rest@);
        let entry = rest.pop().unwrap();
        proof {
            assert(rv.reverse()[0] == rv.last());
            assert(kept_turns.skip(i as int)[0] == kept_turns[i as int]);
            assert(turns_view(rest@) =~= rv.drop_last());
            assert(rv.drop_last().reverse() =~= rv.reverse().drop_first());
            assert(kept_turns.skip(i as int).drop_first() =~= kept_turns.skip(i + 1));
        }
        let ghost mv = messages_view(messages@);
        messages.push(entry.message);
        assert(messages_view(messages@) =~= mv.push(turn_message(kept_turns[i as int])));
        assert(kept_turns.take(i + 1).map_values(|t: TurnView| turn_message(t))
            =~= kept_turns.take(i as int).map_values(|t: TurnView| turn_message(t)).push(turn_message(kept_turns[i as int])));
        i = i + 1;
    }
    assert(kept_turns.take(n as int) =~= kept_turns);
    let ghost mv = messages_view(messages@);
    messages.push(ChatMessage::user(question.as_str()));
    assert(messages_view(messages@) =~= mv.push(MessageView { role: ROLE_USER@, content: question@ }));
    assert(messages_view(messages@) =~= seq![MessageView { role: ROLE_SYSTEM@, content: SYSTEM_PROMPT@ }]
        + kept_turns.map_values(|t: TurnView| turn_message(t))
        + seq![MessageView { role: ROLE_USER@, content: question@ }]);
    merge_consecutive_turns(messages)
}

/// The question is never truncated and is the last thing the model reads: the
/// prompt ends with a user turn whose text ends with the question.
pub proof fn lemma_question_is_never_truncated(
    question: Seq<char>,
    context_length: Option<u32>,
    attachments: Seq<Attachment>,
    documents: Seq<Seq<char>>,
    recalled: Seq<HitView>,
    history: Seq<TurnView>,
    use_memory: bool,
)
    ensures
        ({
            let p = assembled_prompt(question, context_length, attachments, documents, recalled, history, use_memory);
            &&& p.len() > 0
            &&& p.last().role == ROLE_USER@
            &&& p.last().content.len() >= question.len()
            &&& p.last().content.subrange(p.last().content.len() - question.len(), p.last().content.len() as int) == question
        }),
{
    let r0 = initial_room(question, context_length);
    let (attached, r1) = spend(r0, attachment_blocks(attachments));
    let (retrieved, r2) = if r1 > 0 { spend(r1, documents) } else { (Seq::empty(), r1) };
    let hits = if r1 > 0 && use_memory { recalled } else { Seq::empty() };
    let reserved = memory_reservation(r2, use_memory);
    let (kept, r3) = fit_turns(history, (r2 - reserved) as nat);
    let (memory, _) = spend(r3 + reserved, recall_candidates(hits, turn_ids(kept)));
    let qt = question_text(question, memory, attached + retrieved);
    let ms = seq![MessageView { role: ROLE_SYSTEM@, content: SYSTEM_PROMPT@ }]
        + kept.map_values(|t: TurnView| turn_message(t))
        + seq![MessageView { role: ROLE_USER@, content: qt }];
    lemma_merged_keeps_the_last_turn(ms);
    lemma_question_comes_last(question, memory, attached + retrieved);
    let c = merged(ms).last().content;
    assert(ms.last().content == qt);
    assert(c.subrange(c.len() - question.len(), c.len() as int)
        =~= c.subrange(c.len() - qt.len(), c.len() as int).subrange(qt.len() - question.len(), qt.len() as int));
}

/// A chat with memory off builds the same prompt whatever the memory search
/// found: the recalled turns and the reservation only exist with memory on.
pub proof fn lemma_memory_off_ignores_recalled_turns(
    question: Seq<char>,
    context_length: Option<u32>,
    attachments: Seq<Attachment>,
    documents: Seq<Seq<char>>,
    recalled: Seq<HitView>,
    history: Seq<TurnView>,
)
    ensures
        assembled_prompt(question, context_length, attachments, documents, recalled, history, false)
            == assembled_prompt(question, context_length, attachments, documents, Seq::empty(), history, false),
{
}

} // verus!
