//! The text sent to the embedding model, its errors, and the word split used
//! to measure how much of an extracted text survived.

use vstd::prelude::*;
use crate::text::{alphanumeric, concat, is_alphanumeric, lowercase_of, push_char, to_lowercase};

verus! {

/// Size of the vectors the embedding model produces.
pub const EMBEDDING_DIM: usize = 384;

pub const PASSAGE_PREFIX: &'static str = "passage: ";

pub const QUERY_PREFIX: &'static str = "query: ";

/// What can go wrong embedding text.
#[derive(Debug)]
pub enum EmbeddingError {
    ModelUnavailable(String),
    Failed(String),
}

pub open spec fn embedding_error_text(e: EmbeddingError) -> Seq<char> {
    match e {
        EmbeddingError::ModelUnavailable(m) => "não foi possível carregar o modelo de embedding: "@ + m@,
        EmbeddingError::Failed(m) => "falha ao gerar embeddings: "@ + m@,
    }
}

impl EmbeddingError {
    /// The message shown to the user.
    pub fn message(&self) -> (m: String)
        ensures
            m@ == embedding_error_text(*self),
    {
        match self {
            EmbeddingError::ModelUnavailable(m) => concat("não foi possível carregar o modelo de embedding: ", m.as_str()),
            EmbeddingError::Failed(m) => concat("falha ao gerar embeddings: ", m.as_str()),
        }
    }
}

/// The model was trained with `passage:` and `query:` prefixes and loses
/// accuracy without them, so each passage is sent prefixed.
pub fn passage_inputs(texts: &[String]) -> (inputs: Vec<String>)
    ensures
        inputs@.len() == texts@.len(),
        forall|i: int| 0 <= i < inputs@.len() ==> (#[trigger] inputs@[i])@ == PASSAGE_PREFIX@ + texts@[i]@,
{
    let mut inputs: Vec<String> = Vec::new();
    let mut i: usize = 0;
    while i < texts.len()
        invariant
            i <= texts@.len(),
            inputs@.len() == i,
            forall|k: int| 0 <= k < i ==> (#[trigger] inputs@[k])@ == PASSAGE_PREFIX@ + texts@[k]@,
        decreases texts@.len() - i,
    {
        inputs.push(concat(PASSAGE_PREFIX, texts[i].as_str()));
        i = i + 1;
    }
    inputs
}

/// The question, prefixed as a query.
pub fn query_input(text: &str) -> (input: String)
    ensures
        input@ == QUERY_PREFIX@ + text@,
{
    concat(QUERY_PREFIX, text)
}

/// The runs of alphanumeric characters of `s`, continuing the run `cur`:
/// the finished runs and the run still open.
pub open spec fn runs_from(cur: Seq<char>, s: Seq<char>) -> (Seq<Seq<char>>, Seq<char>)
    decreases s.len(),
{
    if s.len() == 0 {
        (Seq::empty(), cur)
    } else {
        let (done, open) = runs_from(cur, s.drop_last());
        if alphanumeric(s.last()) {
            (done, open.push(s.last()))
        } else if open.len() > 0 {
            (done.push(open), Seq::empty())
        } else {
            (done, Seq::empty())
        }
    }
}

/// The words of a text: its non-empty runs of alphanumeric characters, in
/// lower case.
pub open spec fn words_of(text: Seq<char>) -> Seq<Seq<char>> {
    let (done, open) = runs_from(Seq::empty(), text);
    let runs = if open.len() > 0 { done.push(open) } else { done };
    runs.map_values(|w: Seq<char>| lowercase_of(w))
}

pub fn words(text: &str) -> (ws: Vec<String>)
    ensures
        crate::text::views(ws@) == words_of(text@),
{
    let v = crate::text::chars_of(text);
    let mut runs: Vec<String> = Vec::new();
    let mut cur = String::new();
    let mut i: usize = 0;
    assert(v@.take(0) =~= Seq::<char>::empty());
    while i < v.len()
        invariant
            i <= v@.len(),
            v@ == text@,
            (crate::text::views(runs@), cur@) == runs_from(Seq::empty(), v@.take(i as int)),
        decreases v@.len() - i,
    {
        let c = v[i];
        proof {
            assert(v@.take(i + 1).drop_last() =~= v@.take(i as int));
            assert(v@.take(i + 1).last() == c);
        }
        if is_alphanumeric(c) {
            push_char(&mut cur, c);
        } else if !cur.as_str().is_empty() {
            let mut done = String::new();
            std::mem::swap(&mut done, &mut cur);
            runs.push(done);
            assert(crate::text::views(runs@) =~= crate::text::views(runs@.drop_last()).push(runs@.last()@));
        }
        i = i + 1;
    }
    assert(v@.take(v@.len() as int) =~= v@);
    if !cur.as_str().is_empty() {
        runs.push(cur);
        assert(crate::text::views(runs@) =~= crate::text::views(runs@.drop_last()).push(runs@.last()@));
    }
    let ghost raw = crate::text::views(runs@);
    let mut ws: Vec<String> = Vec::new();
    let mut j: usize = 0;
    while j < runs.len()
        invariant
            j <= runs@.len(),
            raw == crate::text::views(runs@),
            ws@.len() == j,
            forall|k: int| 0 <= k < j ==> (#[trigger] ws@[k])@ == lowercase_of(raw[k]),
        decreases runs@.len() - j,
    {
        ws.push(to_lowercase(runs[j].as_str()));
        j = j + 1;
    }
    assert(crate::text::views(ws@) =~= raw.map_values(|w: Seq<char>| lowercase_of(w)));
    ws
}

} // verus!
