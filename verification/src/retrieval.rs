//! One round of retrieval around the vector store: the store's hits become
//! ranking candidates, each selected passage is continued by the chunk that
//! follows it, and each is labelled with the file it came from.

use vstd::prelude::*;
use crate::context::{source_block, source_block_text, MemoryHit, HitView, TOP_K, MEMORY_CANDIDATES};
use crate::ranking::{Candidate, ranked, rank_candidates};
use crate::text::{owned, push_str, str_eq, reversed};

verus! {

/// The namespace of the global knowledge base.
pub const GLOBAL_NAMESPACE: &'static str = "global";

/// The label used when a document's name can no longer be found.
pub const FALLBACK_LABEL: &'static str = "documento";

/// A hit of the vector store within one namespace.
#[derive(Debug)]
pub struct StoredChunk {
    pub doc_id: String,
    pub chunk_index: i32,
    pub text: String,
    /// Squared-L2 distance in whole millionths; `None` when unscored.
    pub distance: Option<u32>,
}

pub struct CandidateView {
    pub namespace: Seq<char>,
    pub doc_id: Seq<char>,
    pub chunk_index: i32,
    pub text: Seq<char>,
    pub distance: Option<u32>,
}

pub open spec fn candidate_view(c: Candidate) -> CandidateView {
    CandidateView { namespace: c.namespace@, doc_id: c.doc_id@, chunk_index: c.chunk_index, text: c.text@, distance: c.distance }
}

pub open spec fn candidates_view(cs: Seq<Candidate>) -> Seq<CandidateView> {
    cs.map_values(|c: Candidate| candidate_view(c))
}

pub open spec fn chunk_candidate(namespace: Seq<char>, c: StoredChunk) -> CandidateView {
    CandidateView { namespace, doc_id: c.doc_id@, chunk_index: c.chunk_index, text: c.text@, distance: c.distance }
}

/// The store's hits in `namespace` as candidates, in the order found.
pub fn candidates_from(namespace: &str, found: Vec<StoredChunk>) -> (cs: Vec<Candidate>)
    ensures
        cs@.len() == found@.len(),
        forall|i: int| 0 <= i < cs@.len() ==> candidate_view(#[trigger] cs@[i]) == chunk_candidate(namespace@, found@[i]),
{
    let ghost input = found@;
    let n = found.len();
    let mut pending = crate::text::reversed(found);
    let mut cs: Vec<Candidate> = Vec::new();
    while pending.len() > 0
        invariant
            input.len() == n,
            cs@.len() + pending@.len() == n,
            pending@.reverse() == input.skip(cs@.len() as int),
            forall|i: int| 0 <= i < cs@.len() ==> candidate_view(#[trigger] cs@[i]) == chunk_candidate(namespace@, input[i]),
        decreases pending@.len(),
    {
        let ghost pv = pending@;
        let ghost k = cs@.len() as int;
        let c = pending.pop().unwrap();
        proof {
            assert(pv.reverse()[0] == pv.last());
            assert(input.skip(k)[0] == input[k]);
            assert(pv.drop_last().reverse() =~= pv.reverse().drop_first());
            assert(input.skip(k).drop_first() =~= input.skip(k + 1));
        }
        cs.push(Candidate {
            namespace: owned(namespace),
            doc_id: c.doc_id,
            chunk_index: c.chunk_index,
            text: c.text,
            distance: c.distance,
        });
    }
    cs
}

/// Whether the chunk that follows `ranked[i]` should be appended to it: only
/// when that chunk was not selected on its own merit.
pub open spec fn wants_neighbour(ranked: Seq<CandidateView>, i: int) -> bool {
    !exists|j: int| 0 <= j < ranked.len() && {
        let c = #[trigger] ranked[j];
        &&& c.namespace == ranked[i].namespace
        &&& c.doc_id == ranked[i].doc_id
        &&& c.chunk_index == ranked[i].chunk_index + 1
    }
}

/// A passage is continued by the chunk that follows it unless that very
/// chunk (same namespace, same document, next index) was selected too: with
/// no other selected chunk of its document in its namespace, it is always
/// continued, and with its successor selected, it never is.
pub proof fn lemma_neighbour_only_within_its_document(ranked: Seq<CandidateView>, i: int)
    requires
        0 <= i < ranked.len(),
    ensures
        (forall|j: int| 0 <= j < ranked.len() && j != i
            ==> (#[trigger] ranked[j]).namespace != ranked[i].namespace || ranked[j].doc_id != ranked[i].doc_id)
            ==> wants_neighbour(ranked, i),
        (exists|j: int| 0 <= j < ranked.len()
            && (#[trigger] ranked[j]).namespace == ranked[i].namespace
            && ranked[j].doc_id == ranked[i].doc_id
            && ranked[j].chunk_index == ranked[i].chunk_index + 1)
            ==> !wants_neighbour(ranked, i),
{
}

pub fn needs_neighbour(ranked: &[Candidate], i: usize) -> (b: bool)
    requires
        i < ranked@.len(),
        ranked@[i as int].chunk_index < i32::MAX,
    ensures
        b == wants_neighbour(candidates_view(ranked@), i as int),
{
    let next = ranked[i].chunk_index + 1;
    let mut j: usize = 0;
    while j < ranked.len()
        invariant
            i < ranked@.len(),
            next == ranked@[i as int].chunk_index + 1,
            j <= ranked@.len(),
            forall|k: int| 0 <= k < j ==> !({
                let c = #[trigger] candidates_view(ranked@)[k];
                &&& c.namespace == ranked@[i as int].namespace@
                &&& c.doc_id == ranked@[i as int].doc_id@
                &&& c.chunk_index == ranked@[i as int].chunk_index + 1
            }),
        decreases ranked@.len() - j,
    {
        let c = &ranked[j];
        if c.chunk_index == next && str_eq(c.namespace.as_str(), ranked[i].namespace.as_str())
            && str_eq(c.doc_id.as_str(), ranked[i].doc_id.as_str()) {
            assert(candidates_view(ranked@)[j as int] == candidate_view(ranked@[j as int]));
            return false;
        }
        j = j + 1;
    }
    true
}

/// A passage continued by the chunk that follows it, on a new line.
pub open spec fn continued(text: Seq<char>, next: Option<Seq<char>>) -> Seq<char> {
    match next {
        Some(n) => text + "\n"@ + n,
        None => text,
    }
}

pub fn with_neighbour(text: &str, next: Option<&str>) -> (r: String)
    ensures
        r@ == continued(text@, match next {
            Some(n) => Some(n@),
            None => None,
        }),
{
    let mut r = owned(text);
    match next {
        Some(n) => {
            push_str(&mut r, "\n");
            push_str(&mut r, n);
        },
        None => {},
    }
    r
}

/// Each passage as a context block naming its file.
pub fn document_blocks(labels: &[String], texts: &[String]) -> (blocks: Vec<String>)
    requires
        labels@.len() == texts@.len(),
    ensures
        blocks@.len() == texts@.len(),
        forall|i: int| 0 <= i < blocks@.len() ==> (#[trigger] blocks@[i])@ == source_block_text(labels@[i]@, texts@[i]@),
{
    let mut blocks: Vec<String> = Vec::new();
    let mut i: usize = 0;
    while i < texts.len()
        invariant
            labels@.len() == texts@.len(),
            i <= texts@.len(),
            blocks@.len() == i,
            forall|k: int| 0 <= k < i ==> (#[trigger] blocks@[k])@ == source_block_text(labels@[k]@, texts@[k]@),
        decreases texts@.len() - i,
    {
        blocks.push(source_block(labels[i].as_str(), texts[i].as_str()));
        i = i + 1;
    }
    blocks
}

/// Recalled turns, each carrying the id of the answer it came from so it can
/// be dropped when that turn is already quoted verbatim.
pub fn memory_hits(ranked: &[Candidate], texts: Vec<String>) -> (hits: Vec<MemoryHit>)
    requires
        ranked@.len() == texts@.len(),
    ensures
        hits@.len() == texts@.len(),
        forall|i: int| 0 <= i < hits@.len() ==> (#[trigger] hits@[i])@ == (HitView {
            answer_id: ranked@[i].doc_id@,
            text: texts@[i]@,
        }),
{
    let ghost input = texts@;
    let n = texts.len();
    let mut pending = crate::text::reversed(texts);
    let mut hits: Vec<MemoryHit> = Vec::new();
    while pending.len() > 0
        invariant
            input.len() == n,
            ranked@.len() == n,
            hits@.len() + pending@.len() == n,
            pending@.reverse() == input.skip(hits@.len() as int),
            forall|i: int| 0 <= i < hits@.len() ==> (#[trigger] hits@[i])@ == (HitView {
                answer_id: ranked@[i].doc_id@,
                text: input[i]@,
            }),
        decreases pending@.len(),
    {
        let ghost pv = pending@;
        let k = hits.len();
        let t = pending.pop().unwrap();
        proof {
            assert(pv.reverse()[0] == pv.last());
            assert(input.skip(k as int)[0] == input[k as int]);
            assert(pv.drop_last().reverse() =~= pv.reverse().drop_first());
            assert(input.skip(k as int).drop_first() =~= input.skip(k + 1));
        }
        hits.push(MemoryHit { answer_id: owned(ranked[k].doc_id.as_str()), text: t });
    }
    hits
}

/// Where a document's file name is kept: global chunks come from the
/// documents table, chat chunks from the chat's attachments.
pub fn names_table(namespace: &str) -> (t: &'static str)
    ensures
        t@ == if namespace@ == GLOBAL_NAMESPACE@ { "documents"@ } else { "chat_attachments"@ },
{
    if str_eq(namespace, GLOBAL_NAMESPACE) {
        "documents"
    } else {
        "chat_attachments"
    }
}

/// The label a passage is shown under: its file name, or a generic label
/// when the document is gone.
pub fn source_label(found: Option<String>) -> (l: String)
    ensures
        match found {
            Some(n) => l@ == n@,
            None => l@ == FALLBACK_LABEL@,
        },
{
    match found {
        Some(n) => n,
        None => owned(FALLBACK_LABEL),
    }
}

/// The hits of one namespace as candidates of that namespace.
pub open spec fn namespace_pool(namespace: Seq<char>, hits: Seq<StoredChunk>) -> Seq<CandidateView> {
    hits.map_values(|c: StoredChunk| chunk_candidate(namespace, c))
}

/// Every hit of every namespace searched, namespace by namespace, each in the
/// order the store found it.
pub open spec fn pooled(found: Seq<(String, Vec<StoredChunk>)>) -> Seq<CandidateView>
    decreases found.len(),
{
    if found.len() == 0 {
        Seq::empty()
    } else {
        pooled(found.drop_last()) + namespace_pool(found.last().0@, found.last().1@)
    }
}

/// `selected` is the ranking, down to `top_k`, of candidates that are `pool`.
pub open spec fn ranks(selected: Seq<Candidate>, pool: Seq<CandidateView>, top_k: nat) -> bool {
    exists|cs: Seq<Candidate>| candidates_view(cs) == pool && selected == #[trigger] ranked(cs, top_k)
}

/// What a round of retrieval selected, before the neighbouring chunks and the
/// file names are looked up.
#[derive(Debug)]
pub struct RoundPlan {
    pub documents: Vec<Candidate>,
    pub memory: Vec<Candidate>,
    pub memory_error: Option<String>,
}

/// Ranks what the searches of one round found. The documents of every
/// namespace are ranked together down to `TOP_K`. The conversation's memory,
/// searched only when it is enabled (`memory` is `None` otherwise), is ranked
/// on its own down to `MEMORY_CANDIDATES`; a failed memory search leaves no
/// memory and is reported beside the documents instead of discarding them.
pub fn plan_round(
    found: Vec<(String, Vec<StoredChunk>)>,
    memory: Option<(String, Result<Vec<StoredChunk>, String>)>,
) -> (p: RoundPlan)
    ensures
        ranks(p.documents@, pooled(found@), TOP_K as nat),
        match memory {
            None => p.memory@.len() == 0 && p.memory_error is None,
            Some((namespace, Ok(hits))) => {
                &&& ranks(p.memory@, namespace_pool(namespace@, hits@), MEMORY_CANDIDATES as nat)
                &&& p.memory_error is None
            },
            Some((_, Err(e))) => {
                &&& p.memory@.len() == 0
                &&& p.memory_error matches Some(m) && m@ == e@
            },
        },
{
    let ghost fv = found@;
    let n = found.len();
    let mut pending = reversed(found);
    let mut pool: Vec<Candidate> = Vec::new();
    while pending.len() > 0
        invariant
            fv.len() == n,
            pending@.len() <= n,
            pending@.reverse() == fv.skip(n - pending@.len()),
            candidates_view(pool@) == pooled(fv.take(n - pending@.len())),
        decreases pending@.len(),
    {
        let ghost pv = pending@;
        let ghost k = n - pv.len();
        let (namespace, hits) = pending.pop().unwrap();
        let mut more = candidates_from(namespace.as_str(), hits);
        proof {
            assert(pv.reverse()[0] == pv.last());
            assert(fv.skip(k)[0] == fv[k]);
            assert(pv.drop_last().reverse() =~= pv.reverse().drop_first());
            assert(fv.skip(k).drop_first() =~= fv.skip(k + 1));
            assert(fv.take(k + 1).drop_last() =~= fv.take(k));
            assert(candidates_view(more@) =~= namespace_pool(namespace@, fv[k].1@));
        }
        let ghost before = pool@;
        let ghost added = more@;
        pool.append(&mut more);
        proof {
            assert(candidates_view(pool@) =~= candidates_view(before) + candidates_view(added));
        }
    }
    proof {
        assert(fv.take(n as int) =~= fv);
    }
    let ghost all = pool@;
    let documents = rank_candidates(pool, TOP_K);
    assert(candidates_view(all) == pooled(fv) && documents@ == ranked(all, TOP_K as nat));
    match memory {
        None => RoundPlan { documents, memory: Vec::new(), memory_error: None },
        Some((namespace, Ok(hits))) => {
            let recalled = candidates_from(namespace.as_str(), hits);
            let ghost rv = recalled@;
            assert(candidates_view(rv) =~= namespace_pool(namespace@, hits@));
            let memory = rank_candidates(recalled, MEMORY_CANDIDATES);
            assert(memory@ == ranked(rv, MEMORY_CANDIDATES as nat));
            RoundPlan { documents, memory, memory_error: None }
        },
        Some((_, Err(e))) => RoundPlan { documents, memory: Vec::new(), memory_error: Some(e) },
    }
}

/// A looked-up neighbouring chunk, by its view.
pub open spec fn next_view(next: Option<String>) -> Option<Seq<char>> {
    match next {
        Some(n) => Some(n@),
        None => None,
    }
}

/// The text of the `i`-th selected passage: continued by the chunk that
/// follows it, when that chunk was found and not selected on its own.
pub open spec fn passage_text(selected: Seq<Candidate>, next: Seq<Option<String>>, i: int) -> Seq<char> {
    continued(
        selected[i].text@,
        if wants_neighbour(candidates_view(selected), i) { next_view(next[i]) } else { None },
    )
}

/// Whether every chunk in `s` has a successor index.
pub open spec fn successors_fit(s: Seq<Candidate>) -> bool {
    forall|i: int| 0 <= i < s.len() ==> (#[trigger] s[i]).chunk_index < i32::MAX
}

/// The outcome of a round of retrieval.
#[derive(Debug)]
pub struct Retrieved {
    pub documents: Vec<String>,
    pub memory: Vec<MemoryHit>,
    /// Reported apart: the memory is the least important layer, and its
    /// failure must not discard passages already found.
    pub memory_error: Option<String>,
}

/// The texts of `selected`, each continued by its neighbour where wanted.
fn passage_texts(selected: &[Candidate], next: &[Option<String>]) -> (texts: Vec<String>)
    requires
        next@.len() == selected@.len(),
        successors_fit(selected@),
    ensures
        texts@.len() == selected@.len(),
        forall|i: int| 0 <= i < texts@.len() ==> (#[trigger] texts@[i])@ == passage_text(selected@, next@, i),
{
    let mut texts: Vec<String> = Vec::new();
    let mut i: usize = 0;
    while i < selected.len()
        invariant
            next@.len() == selected@.len(),
            successors_fit(selected@),
            i <= selected@.len(),
            texts@.len() == i,
            forall|k: int| 0 <= k < i ==> (#[trigger] texts@[k])@ == passage_text(selected@, next@, k),
        decreases selected@.len() - i,
    {
        let wanted = needs_neighbour(selected, i);
        let follow: Option<&str> = if wanted {
            match &next[i] {
                Some(t) => Some(t.as_str()),
                None => None,
            }
        } else {
            None
        };
        texts.push(with_neighbour(selected[i].text.as_str(), follow));
        i = i + 1;
    }
    texts
}

/// Completes a round from its plan: `labels[i]` names the file of the `i`-th
/// document, and `document_next[i]` / `memory_next[i]` hold the chunk that
/// follows the `i`-th passage where the store had one. A neighbour is appended
/// only when it was not selected on its own; each document becomes a block
/// naming its file; each recalled turn keeps the id of the answer it came from.
pub fn finish_round(
    plan: RoundPlan,
    labels: Vec<String>,
    document_next: Vec<Option<String>>,
    memory_next: Vec<Option<String>>,
) -> (r: Retrieved)
    requires
        labels@.len() == plan.documents@.len(),
        document_next@.len() == plan.documents@.len(),
        memory_next@.len() == plan.memory@.len(),
        successors_fit(plan.documents@),
        successors_fit(plan.memory@),
    ensures
        r.documents@.len() == plan.documents@.len(),
        forall|i: int| 0 <= i < r.documents@.len() ==> (#[trigger] r.documents@[i])@
            == source_block_text(labels@[i]@, passage_text(plan.documents@, document_next@, i)),
        r.memory@.len() == plan.memory@.len(),
        forall|i: int| 0 <= i < r.memory@.len() ==> (#[trigger] r.memory@[i])@ == (HitView {
            answer_id: plan.memory@[i].doc_id@,
            text: passage_text(plan.memory@, memory_next@, i),
        }),
        r.memory_error == plan.memory_error,
{
    let texts = passage_texts(plan.documents.as_slice(), document_next.as_slice());
    let documents = document_blocks(labels.as_slice(), texts.as_slice());
    let recalled = passage_texts(plan.memory.as_slice(), memory_next.as_slice());
    let memory = memory_hits(plan.memory.as_slice(), recalled);
    Retrieved { documents, memory, memory_error: plan.memory_error }
}

} // verus!
