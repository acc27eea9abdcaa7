//! What every model provider shares: the chat message, the installed-model and
//! pull-progress records, the configuration report, the error type, and the
//! answer budget each request is capped at.

use vstd::prelude::*;
use crate::runtime::{base_url, local_url};
use crate::text::{ends_with, eq_ignore_ascii_case, extension_of, file_extension, lex_le, owned, reversed, starts_with, str_eq, str_eq_ignore_ascii_case, str_ends_with, str_lex_le, str_starts_with};

verus! {

/// One chat turn as the providers receive it.
#[derive(Debug)]
pub struct ChatMessage {
    pub role: String,
    pub content: String,
}

/// The role and text of a chat turn.
pub struct MessageView {
    pub role: Seq<char>,
    pub content: Seq<char>,
}

impl View for ChatMessage {
    type V = MessageView;

    open spec fn view(&self) -> MessageView {
        MessageView { role: self.role@, content: self.content@ }
    }
}

/// The views of a list of messages.
pub open spec fn messages_view(ms: Seq<ChatMessage>) -> Seq<MessageView> {
    ms.map_values(|m: ChatMessage| m@)
}

pub const ROLE_SYSTEM: &'static str = "system";

pub const ROLE_USER: &'static str = "user";

pub const ROLE_ASSISTANT: &'static str = "assistant";

impl ChatMessage {
    pub fn system(content: &str) -> (m: ChatMessage)
        ensures
            m@.role == ROLE_SYSTEM@,
            m@.content == content@,
    {
        ChatMessage { role: owned(ROLE_SYSTEM), content: owned(content) }
    }

    pub fn user(content: &str) -> (m: ChatMessage)
        ensures
            m@.role == ROLE_USER@,
            m@.content == content@,
    {
        ChatMessage { role: owned(ROLE_USER), content: owned(content) }
    }

    pub fn assistant(content: &str) -> (m: ChatMessage)
        ensures
            m@.role == ROLE_ASSISTANT@,
            m@.content == content@,
    {
        ChatMessage { role: owned(ROLE_ASSISTANT), content: owned(content) }
    }
}

/// Used when no context length was configured for the active model.
pub const DEFAULT_CONTEXT_TOKENS: u32 = 4096;

/// Never ask for fewer answer tokens than this, however small the window.
pub const MIN_ANSWER_TOKENS: u32 = 512;

/// Never ask for more answer tokens than this, however large the window.
pub const MAX_ANSWER_TOKENS: u32 = 2048;

/// Answer tokens for a window of `total` tokens: half of it, held between
/// the two bounds.
pub open spec fn answer_tokens_for(total: u32) -> u32 {
    let half = total / 2;
    if half < MIN_ANSWER_TOKENS {
        MIN_ANSWER_TOKENS
    } else if half > MAX_ANSWER_TOKENS {
        MAX_ANSWER_TOKENS
    } else {
        half
    }
}

/// How many tokens the provider is allowed to generate for one answer. The
/// prompt budget reserves exactly this much, so the two never overlap.
pub fn answer_token_budget(context_length: Option<u32>) -> (n: u32)
    ensures
        n == answer_tokens_for(
            match context_length {
                Some(c) => c,
                None => DEFAULT_CONTEXT_TOKENS,
            },
        ),
        MIN_ANSWER_TOKENS <= n <= MAX_ANSWER_TOKENS,
{
    let total = match context_length {
        Some(c) => c,
        None => DEFAULT_CONTEXT_TOKENS,
    };
    let half = total / 2;
    if half < MIN_ANSWER_TOKENS {
        MIN_ANSWER_TOKENS
    } else if half > MAX_ANSWER_TOKENS {
        MAX_ANSWER_TOKENS
    } else {
        half
    }
}

/// A model the provider can serve.
#[derive(Debug)]
pub struct InstalledModel {
    pub name: String,
    pub size_bytes: Option<u64>,
}

/// Where a model download stands.
#[derive(Debug, Clone, Copy, PartialEq, Eq, Structural)]
pub enum PullStatus {
    Downloading,
    Verifying,
    Success,
    Error,
}

/// One progress report of a model download.
#[derive(Debug)]
pub struct PullProgress {
    pub status: PullStatus,
    pub downloaded_bytes: Option<u64>,
    pub total_bytes: Option<u64>,
    pub message: Option<String>,
}

/// Which configuration fields the provider actually accepted.
#[derive(Debug)]
pub struct ConfigApplied {
    pub context_length_applied: Option<u32>,
    pub gpu_offload_applied: Option<String>,
    pub requires_reload: bool,
    pub note: Option<String>,
}

/// What went wrong talking to a provider.
#[derive(Debug)]
pub enum ProviderError {
    Unavailable,
    RequestFailed(String),
    ParseError(String),
}

pub open spec fn provider_error_text(e: ProviderError) -> Seq<char> {
    match e {
        ProviderError::Unavailable => "provider unavailable"@,
        ProviderError::RequestFailed(m) => "request failed: "@ + m@,
        ProviderError::ParseError(m) => "parse error: "@ + m@,
    }
}

impl ProviderError {
    /// The message shown to the user.
    pub fn message(&self) -> (m: String)
        ensures
            m@ == provider_error_text(*self),
    {
        match self {
            ProviderError::Unavailable => owned("provider unavailable"),
            ProviderError::RequestFailed(msg) => crate::text::concat("request failed: ", msg.as_str()),
            ProviderError::ParseError(msg) => crate::text::concat("parse error: ", msg.as_str()),
        }
    }
}

/// The context window a model was trained for and the one currently allocated.
#[derive(Debug)]
pub struct ModelLimits {
    pub max_context: Option<u32>,
    pub current_context: Option<u32>,
}

impl Default for ModelLimits {
    fn default() -> (l: ModelLimits)
        ensures
            l.max_context is None,
            l.current_context is None,
    {
        ModelLimits { max_context: None, current_context: None }
    }
}

/// One line of Ollama's streamed `/api/pull` answer.
#[derive(Debug)]
pub struct PullLine {
    pub status: Option<String>,
    pub total: Option<u64>,
    pub completed: Option<u64>,
    pub error: Option<String>,
}

pub open spec fn pull_status_for(text: Seq<char>) -> PullStatus {
    if text == "success"@ {
        PullStatus::Success
    } else if starts_with(text, "verifying"@) || starts_with(text, "writing"@) {
        PullStatus::Verifying
    } else {
        PullStatus::Downloading
    }
}

/// The status, byte counts and message of a progress report.
pub struct ProgressView {
    pub status: PullStatus,
    pub downloaded_bytes: Option<u64>,
    pub total_bytes: Option<u64>,
    pub message: Option<Seq<char>>,
}

impl View for PullProgress {
    type V = ProgressView;

    open spec fn view(&self) -> ProgressView {
        ProgressView {
            status: self.status,
            downloaded_bytes: self.downloaded_bytes,
            total_bytes: self.total_bytes,
            message: match self.message {
                Some(m) => Some(m@),
                None => None,
            },
        }
    }
}

/// The report a pull line becomes: an error line reports the error with
/// Ollama's message; any other line reports "success" as done, "verifying..."
/// and "writing..." as verifying and everything else as downloading, with the
/// byte counts and the status text passed through.
pub open spec fn line_progress(l: PullLine) -> ProgressView {
    match l.error {
        Some(e) => ProgressView { status: PullStatus::Error, downloaded_bytes: None, total_bytes: None, message: Some(e@) },
        None => {
            let text = match l.status {
                Some(t) => t@,
                None => Seq::<char>::empty(),
            };
            ProgressView { status: pull_status_for(text), downloaded_bytes: l.completed, total_bytes: l.total, message: Some(text) }
        },
    }
}

impl PullLine {
    pub fn into_progress(self) -> (p: PullProgress)
        ensures
            p@ == line_progress(self),
    {
        if let Some(error) = self.error {
            return PullProgress { status: PullStatus::Error, downloaded_bytes: None, total_bytes: None, message: Some(error) };
        }
        let status_text = match self.status {
            Some(t) => t,
            None => String::new(),
        };
        let status = if str_eq(status_text.as_str(), "success") {
            PullStatus::Success
        } else if str_starts_with(status_text.as_str(), "verifying") || str_starts_with(status_text.as_str(), "writing") {
            PullStatus::Verifying
        } else {
            PullStatus::Downloading
        };
        PullProgress { status, downloaded_bytes: self.completed, total_bytes: self.total, message: Some(status_text) }
    }
}

/// What a pull line reports: a pull is done exactly on an error-free line
/// whose status text is `success`, and fails exactly on a line carrying an
/// error, whose message it shows; an error-free line whose text starts with
/// `verifying` or `writing` is verifying, and every error-free line passes its
/// status text and byte counts on.
pub proof fn lemma_pull_line_outcome(l: PullLine)
    ensures
        (line_progress(l).status == PullStatus::Success)
            <==> (l.error is None && (l.status matches Some(t) && t@ == "success"@)),
        (line_progress(l).status == PullStatus::Error) <==> l.error is Some,
        l.error matches Some(e) ==> line_progress(l).message == Some(e@),
        l.error is None ==> (l.status matches Some(t) && (starts_with(t@, "verifying"@) || starts_with(t@, "writing"@))
            ==> line_progress(l).status == PullStatus::Verifying),
        l.error is None ==> line_progress(l).downloaded_bytes == l.completed && line_progress(l).total_bytes == l.total
            && line_progress(l).message == Some(match l.status {
                Some(t) => t@,
                None => Seq::<char>::empty(),
            }),
{
    reveal_strlit("success");
    reveal_strlit("verifying");
    reveal_strlit("writing");
    if l.error is None {
        if let Some(t) = l.status {
            if starts_with(t@, "verifying"@) {
                assert(t@.subrange(0, 9)[0] == t@[0]);
                assert(t@[0] == 'v');
                assert(t@ != "success"@);
            } else if starts_with(t@, "writing"@) {
                assert(t@.subrange(0, 7)[0] == t@[0]);
                assert(t@[0] == 'w');
                assert(t@ != "success"@);
            }
        } else {
            assert(Seq::<char>::empty() != "success"@) by {
                assert("success"@.len() == 7);
            }
        }
    }
}

/// The pull status an LM Studio download job reports.
pub fn download_job_status(status: &str) -> (s: PullStatus)
    ensures
        s == if status@ == "completed"@ {
            PullStatus::Success
        } else if status@ == "failed"@ {
            PullStatus::Error
        } else {
            PullStatus::Downloading
        },
{
    if str_eq(status, "completed") {
        PullStatus::Success
    } else if str_eq(status, "failed") {
        PullStatus::Error
    } else {
        PullStatus::Downloading
    }
}

/// llama.cpp's `/v1/models` entry: its id and, when the server adds it, the
/// trained and allocated context windows.
#[derive(Debug)]
pub struct ModelEntry {
    pub id: String,
    pub n_ctx: Option<u32>,
    pub n_ctx_train: Option<u32>,
    pub has_meta: bool,
}

/// Whether an entry names `model`: by its whole id, or with `by_suffix` by
/// the id's ending.
pub open spec fn entry_names(e: ModelEntry, model: Seq<char>, by_suffix: bool) -> bool {
    if by_suffix {
        ends_with(e.id@, model)
    } else {
        e.id@ == model
    }
}

/// The position of the first entry that names `model`.
pub open spec fn first_naming(entries: Seq<ModelEntry>, model: Seq<char>, by_suffix: bool) -> Option<int>
    decreases entries.len(),
{
    if entries.len() == 0 {
        None
    } else if entry_names(entries[0], model, by_suffix) {
        Some(0)
    } else {
        match first_naming(entries.drop_first(), model, by_suffix) {
            Some(i) => Some(i + 1),
            None => None,
        }
    }
}

/// The entry the limits are read from: the exact id first, then an id ending
/// with the name (the server reports the full path it was started with), then
/// the first entry.
pub open spec fn chosen_entry(entries: Seq<ModelEntry>, model: Seq<char>) -> Option<int> {
    match first_naming(entries, model, false) {
        Some(i) => Some(i),
        None => match first_naming(entries, model, true) {
            Some(i) => Some(i),
            None => if entries.len() > 0 { Some(0) } else { None },
        },
    }
}

proof fn lemma_first_naming(entries: Seq<ModelEntry>, model: Seq<char>, by_suffix: bool)
    ensures
        first_naming(entries, model, by_suffix) matches Some(i) ==> {
            &&& 0 <= i < entries.len()
            &&& entry_names(entries[i], model, by_suffix)
            &&& forall|j: int| 0 <= j < i ==> !entry_names(#[trigger] entries[j], model, by_suffix)
        },
        first_naming(entries, model, by_suffix) is None ==> forall|j: int|
            0 <= j < entries.len() ==> !entry_names(#[trigger] entries[j], model, by_suffix),
    decreases entries.len(),
{
    if entries.len() > 0 {
        let t = entries.drop_first();
        lemma_first_naming(t, model, by_suffix);
        assert forall|j: int| 1 <= j < entries.len() implies #[trigger] entries[j] == t[j - 1] by {}
    }
}

fn find_entry(entries: &[ModelEntry], model: &str, by_suffix: bool) -> (i: Option<usize>)
    ensures
        i matches Some(a) ==> a < entries@.len(),
        match (i, first_naming(entries@, model@, by_suffix)) {
            (Some(a), Some(b)) => a == b,
            (None, None) => true,
            _ => false,
        },
{
    proof {
        lemma_first_naming(entries@, model@, by_suffix);
    }
    let mut i: usize = 0;
    while i < entries.len()
        invariant
            i <= entries@.len(),
            forall|j: int| 0 <= j < i ==> !entry_names(#[trigger] entries@[j], model@, by_suffix),
            first_naming(entries@, model@, by_suffix) matches Some(k) ==> {
                &&& 0 <= k < entries@.len()
                &&& entry_names(entries@[k], model@, by_suffix)
                &&& forall|j: int| 0 <= j < k ==> !entry_names(#[trigger] entries@[j], model@, by_suffix)
            },
            first_naming(entries@, model@, by_suffix) is None ==> forall|j: int|
                0 <= j < entries@.len() ==> !entry_names(#[trigger] entries@[j], model@, by_suffix),
        decreases entries@.len() - i,
    {
        let hit = if by_suffix {
            str_ends_with(entries[i].id.as_str(), model)
        } else {
            str_eq(entries[i].id.as_str(), model)
        };
        assert(hit == entry_names(entries@[i as int], model@, by_suffix));
        if hit {
            return Some(i);
        }
        i = i + 1;
    }
    None
}

/// The limits of `model` among the server's entries: the chosen entry's
/// trained window as the maximum and its allocated window as the current one;
/// nothing when no entry carries that information.
pub fn limits_from_entries(entries: &[ModelEntry], model: &str) -> (l: ModelLimits)
    ensures
        match chosen_entry(entries@, model@) {
            Some(i) => if entries@[i].has_meta {
                l.max_context == entries@[i].n_ctx_train && l.current_context == entries@[i].n_ctx
            } else {
                l.max_context is None && l.current_context is None
            },
            None => l.max_context is None && l.current_context is None,
        },
{
    let chosen = match find_entry(entries, model, false) {
        Some(i) => Some(i),
        None => match find_entry(entries, model, true) {
            Some(i) => Some(i),
            None => if entries.len() > 0 { Some(0) } else { None },
        },
    };
    match chosen {
        Some(i) => {
            if entries[i].has_meta {
                ModelLimits { max_context: entries[i].n_ctx_train, current_context: entries[i].n_ctx }
            } else {
                ModelLimits::default()
            }
        },
        None => ModelLimits::default(),
    }
}

/// The first key ending in `.context_length`, and its value when that is an
/// unsigned integer, truncated to 32 bits as `as u32` does.
pub open spec fn context_length_in(info: Seq<(Seq<char>, Option<u64>)>) -> Option<u32>
    decreases info.len(),
{
    if info.len() == 0 {
        None
    } else if ends_with(info[0].0, ".context_length"@) {
        match info[0].1 {
            Some(v) => Some(v as u32),
            None => None,
        }
    } else {
        context_length_in(info.drop_first())
    }
}

pub open spec fn info_view(info: Seq<(String, Option<u64>)>) -> Seq<(Seq<char>, Option<u64>)> {
    info.map_values(|e: (String, Option<u64>)| (e.0@, e.1))
}

/// Ollama's `/api/show` prefixes the context length with the architecture
/// (`llama.context_length`, `gemma4.context_length`), so the key is matched by
/// its suffix. `info` holds the `model_info` entries in order, each with its
/// value when that is an unsigned integer.
pub fn context_length_from_model_info(info: &[(String, Option<u64>)]) -> (c: Option<u32>)
    ensures
        c == context_length_in(info_view(info@)),
{
    let mut i: usize = 0;
    assert(info_view(info@).skip(0) =~= info_view(info@));
    while i < info.len()
        invariant
            i <= info@.len(),
            context_length_in(info_view(info@)) == context_length_in(info_view(info@).skip(i as int)),
        decreases info@.len() - i,
    {
        proof {
            let v = info_view(info@).skip(i as int);
            assert(v[0] == (info@[i as int].0@, info@[i as int].1));
            assert(v.drop_first() =~= info_view(info@).skip(i + 1));
        }
        if str_ends_with(info[i].0.as_str(), ".context_length") {
            return match info[i].1 {
                Some(v) => Some(v as u32),
                None => None,
            };
        }
        i = i + 1;
    }
    assert(info_view(info@).skip(i as int).len() == 0);
    None
}

/// Whether `name` is a GGUF model file: its extension is `gguf` in any ASCII
/// case.
pub open spec fn is_gguf(name: Seq<char>) -> bool {
    extension_of(name) matches Some(e) && eq_ignore_ascii_case(e, "gguf"@)
}

pub open spec fn model_files(files: Seq<InstalledModel>) -> Seq<InstalledModel>
    decreases files.len(),
{
    if files.len() == 0 {
        Seq::empty()
    } else {
        let rest = model_files(files.drop_last());
        if is_gguf(files.last().name@) { rest.push(files.last()) } else { rest }
    }
}

/// How many leading entries of `sorted` sort before or with `name`.
pub open spec fn leading_not_after(sorted: Seq<InstalledModel>, name: Seq<char>) -> nat
    decreases sorted.len(),
{
    if sorted.len() == 0 {
        0
    } else if lex_le(sorted[0].name@, name) {
        1 + leading_not_after(sorted.drop_first(), name)
    } else {
        0
    }
}

/// `files` ordered by name, stably.
pub open spec fn sorted_by_name(files: Seq<InstalledModel>) -> Seq<InstalledModel>
    decreases files.len(),
{
    if files.len() == 0 {
        Seq::empty()
    } else {
        let rest = sorted_by_name(files.drop_last());
        rest.insert(leading_not_after(rest, files.last().name@) as int, files.last())
    }
}

fn gguf_only(files: Vec<InstalledModel>) -> (models: Vec<InstalledModel>)
    ensures
        models@ == model_files(files@),
{
    let ghost input = files@;
    let n = files.len();
    let mut pending = reversed(files);
    let mut models: Vec<InstalledModel> = Vec::new();
    let mut i: usize = 0;
    while pending.len() > 0
        invariant
            input.len() == n,
            i <= n,
            pending@.len() == n - i,
            pending@.reverse() == input.skip(i as int),
            models@ == model_files(input.take(i as int)),
        decreases pending@.len(),
    {
        let ghost pv = pending@;
        let f = pending.pop().unwrap();
        proof {
            assert(pv.reverse()[0] == pv.last());
            assert(input.skip(i as int)[0] == input[i as int]);
            assert(pv.drop_last().reverse() =~= pv.reverse().drop_first());
            assert(input.skip(i as int).drop_first() =~= input.skip(i + 1));
            assert(input.take(i + 1).drop_last() =~= input.take(i as int));
            assert(input.take(i + 1).last() == f);
        }
        let keep = match file_extension(f.name.as_str()) {
            Some(e) => str_eq_ignore_ascii_case(e.as_str(), "gguf"),
            None => false,
        };
        if keep {
            models.push(f);
        }
        i = i + 1;
    }
    assert(input.take(n as int) =~= input);
    models
}

fn sort_by_name(files: Vec<InstalledModel>) -> (sorted: Vec<InstalledModel>)
    ensures
        sorted@ == sorted_by_name(files@),
{
    let ghost input = files@;
    let n = files.len();
    let mut pending = reversed(files);
    let mut sorted: Vec<InstalledModel> = Vec::new();
    let mut i: usize = 0;
    while pending.len() > 0
        invariant
            input.len() == n,
            i <= n,
            pending@.len() == n - i,
            pending@.reverse() == input.skip(i as int),
            sorted@ == sorted_by_name(input.take(i as int)),
        decreases pending@.len(),
    {
        let ghost pv = pending@;
        let f = pending.pop().unwrap();
        proof {
            assert(pv.reverse()[0] == pv.last());
            assert(input.skip(i as int)[0] == input[i as int]);
            assert(pv.drop_last().reverse() =~= pv.reverse().drop_first());
            assert(input.skip(i as int).drop_first() =~= input.skip(i + 1));
            assert(input.take(i + 1).drop_last() =~= input.take(i as int));
            assert(input.take(i + 1).last() == f);
        }
        let mut j: usize = 0;
        let mut found = false;
        assert(sorted@.skip(0) =~= sorted@);
        while !found && j < sorted.len()
            invariant
                j <= sorted@.len(),
                leading_not_after(sorted@, f.name@) == j + leading_not_after(sorted@.skip(j as int), f.name@),
                found ==> leading_not_after(sorted@.skip(j as int), f.name@) == 0,
            decreases sorted@.len() - j, (if found { 0int } else { 1int }),
        {
            proof {
                assert(sorted@.skip(j as int)[0] == sorted@[j as int]);
                assert(sorted@.skip(j as int).drop_first() =~= sorted@.skip(j + 1));
            }
            if str_lex_le(sorted[j].name.as_str(), f.name.as_str()) {
                j = j + 1;
            } else {
                found = true;
            }
        }
        proof {
            if !found {
                assert(sorted@.skip(j as int).len() == 0);
            }
        }
        sorted.insert(j, f);
        i = i + 1;
        assert(sorted_by_name(input.take(i as int)) == sorted@);
    }
    assert(input.take(n as int) =~= input);
    sorted
}

/// The models in a folder listing: the GGUF files only (in any case of the
/// extension), ordered by name. `files` holds each entry's file name and size.
pub fn gguf_models(files: Vec<InstalledModel>) -> (models: Vec<InstalledModel>)
    ensures
        models@ == sorted_by_name(model_files(files@)),
{
    sort_by_name(gguf_only(files))
}

/// The embedded runtime as a provider: the port of the running server, if any,
/// and the folder its models live in.
#[derive(Debug)]
pub struct EmbeddedClient {
    pub port: Option<u16>,
    pub models_dir: String,
}

impl EmbeddedClient {
    pub fn new(port: Option<u16>, models_dir: String) -> (c: EmbeddedClient)
        ensures
            c.port == port,
            c.models_dir == models_dir,
    {
        EmbeddedClient { port, models_dir }
    }

    /// Where the running server answers; a stopped runtime is `Unavailable`,
    /// the same situation as any other provider that is not running.
    pub fn server_url(&self) -> (r: Result<String, ProviderError>)
        ensures
            match self.port {
                Some(p) => r matches Ok(u) && u@ == local_url(p),
                None => r matches Err(ProviderError::Unavailable),
            },
    {
        match self.port {
            Some(p) => Ok(base_url(p)),
            None => Err(ProviderError::Unavailable),
        }
    }
}

/// A health check passes exactly when the server answered with success.
pub fn health_outcome(success: bool) -> (r: Result<(), ProviderError>)
    ensures
        success ==> r is Ok,
        !success ==> r matches Err(ProviderError::Unavailable),
{
    if success {
        Ok(())
    } else {
        Err(ProviderError::Unavailable)
    }
}

/// A failed request: a server that cannot be reached, or does not answer in
/// time, is unavailable; anything else failed with the client's message.
pub fn provider_error_from(unreachable: bool, text: String) -> (e: ProviderError)
    ensures
        unreachable ==> e matches ProviderError::Unavailable,
        !unreachable ==> (e matches ProviderError::RequestFailed(m) && m@ == text@),
{
    if unreachable {
        ProviderError::Unavailable
    } else {
        ProviderError::RequestFailed(text)
    }
}

/// A chat request the server refused: its status and the body it sent.
pub fn chat_refused(status: &str, detail: &str) -> (e: ProviderError)
    ensures
        e matches ProviderError::RequestFailed(m) && m@ == status@ + ": "@ + detail@,
{
    let mut m = crate::text::concat(status, ": ");
    crate::text::push_str(&mut m, detail);
    ProviderError::RequestFailed(m)
}

/// Which GPU offload was asked for. A fraction is described by what the
/// runtimes compare it against: whether it is above zero and whether it
/// reaches the whole model.
#[derive(Debug, Clone, Copy, PartialEq, Eq, Structural)]
pub enum OffloadChoice {
    Off,
    Max,
    Fraction { positive: bool, full: bool },
}

/// The `-ngl` value of the embedded runtime: every layer or none. The number
/// of layers of a model is not known without reading it, so a partial
/// fraction cannot be honoured and counts as none.
pub fn gpu_layers_for(offload: OffloadChoice) -> (n: i32)
    ensures
        n == match offload {
            OffloadChoice::Max => -1i32,
            OffloadChoice::Off => 0i32,
            OffloadChoice::Fraction { full, .. } => if full { -1i32 } else { 0i32 },
        },
{
    match offload {
        OffloadChoice::Max => -1,
        OffloadChoice::Off => 0,
        OffloadChoice::Fraction { full, .. } => if full { -1 } else { 0 },
    }
}

/// The per-request options of an Ollama chat.
#[derive(Debug)]
pub struct OllamaOptions {
    pub num_ctx: Option<u32>,
    pub num_predict: u32,
    pub num_gpu: Option<u32>,
}

/// Ollama takes the context window and GPU layers with each request. The
/// answer is always capped, as for the other providers; `num_gpu` counts
/// layers, with 0 keeping everything on the CPU and a large number meaning
/// as many as fit.
pub fn ollama_options(context_length: Option<u32>, offload: Option<OffloadChoice>) -> (o: OllamaOptions)
    ensures
        o.num_ctx == context_length,
        o.num_predict == answer_tokens_for(match context_length {
            Some(c) => c,
            None => DEFAULT_CONTEXT_TOKENS,
        }),
        o.num_gpu == match offload {
            None => None,
            Some(OffloadChoice::Off) => Some(0u32),
            Some(OffloadChoice::Max) => Some(999u32),
            Some(OffloadChoice::Fraction { positive, .. }) => if positive { Some(999u32) } else { Some(0u32) },
        },
{
    let num_gpu = match offload {
        None => None,
        Some(OffloadChoice::Off) => Some(0),
        Some(OffloadChoice::Max) => Some(999),
        Some(OffloadChoice::Fraction { positive, .. }) => if positive { Some(999) } else { Some(0) },
    };
    OllamaOptions { num_ctx: context_length, num_predict: answer_token_budget(context_length), num_gpu }
}

pub const OLLAMA_NOTE: &'static str = "Ollama applies context/GPU settings per chat request, not on save";

pub const LMSTUDIO_FRACTION_NOTE: &'static str = "LM Studio only supports on/off GPU KV-cache offload, not a partial fraction — treated as fully on";

pub const CUSTOM_NOTE: &'static str = "custom connections don't expose a standard config API — context/GPU settings weren't applied";

pub const EMBEDDED_NOTE: &'static str = "o runtime embutido aplica contexto e GPU ao iniciar — o servidor foi reiniciado com as novas configurações";

pub const CUSTOM_PULL_UNSUPPORTED: &'static str = "downloading models isn't supported for custom connections";

/// Ollama has nothing to save: both settings travel with each chat request.
pub fn ollama_config_applied(context_length: Option<u32>, gpu_value: Option<String>) -> (c: ConfigApplied)
    ensures
        c.context_length_applied == context_length,
        c.gpu_offload_applied == gpu_value,
        !c.requires_reload,
        c.note matches Some(n) && n@ == OLLAMA_NOTE@,
{
    ConfigApplied {
        context_length_applied: context_length,
        gpu_offload_applied: gpu_value,
        requires_reload: false,
        note: Some(owned(OLLAMA_NOTE)),
    }
}

/// Whether LM Studio is told to offload the KV cache: any choice but off.
pub fn kv_offload(offload: Option<OffloadChoice>) -> (b: Option<bool>)
    ensures
        b == match offload {
            Some(g) => Some(g != OffloadChoice::Off),
            None => None,
        },
{
    match offload {
        Some(OffloadChoice::Off) => Some(false),
        Some(_) => Some(true),
        None => None,
    }
}

/// LM Studio applies both settings on a (re)load, and only knows the KV-cache
/// offload as on or off: a fraction is treated as on, and says so.
pub fn lmstudio_config_applied(context_length: Option<u32>, offload: Option<OffloadChoice>) -> (c: ConfigApplied)
    ensures
        c.context_length_applied == context_length,
        match offload {
            Some(g) => c.gpu_offload_applied matches Some(v) && v@ == (if g != OffloadChoice::Off { "true"@ } else { "false"@ }),
            None => c.gpu_offload_applied is None,
        },
        c.requires_reload,
        match offload {
            Some(OffloadChoice::Fraction { .. }) => c.note matches Some(n) && n@ == LMSTUDIO_FRACTION_NOTE@,
            _ => c.note is None,
        },
{
    let applied = match kv_offload(offload) {
        Some(true) => Some(owned("true")),
        Some(false) => Some(owned("false")),
        None => None,
    };
    let note = match offload {
        Some(OffloadChoice::Fraction { .. }) => Some(owned(LMSTUDIO_FRACTION_NOTE)),
        _ => None,
    };
    ConfigApplied { context_length_applied: context_length, gpu_offload_applied: applied, requires_reload: true, note }
}

/// A custom server has no standard configuration API: nothing is applied,
/// and the note says so.
pub fn custom_config_applied() -> (c: ConfigApplied)
    ensures
        c.context_length_applied is None,
        c.gpu_offload_applied is None,
        !c.requires_reload,
        c.note matches Some(n) && n@ == CUSTOM_NOTE@,
{
    ConfigApplied {
        context_length_applied: None,
        gpu_offload_applied: None,
        requires_reload: false,
        note: Some(owned(CUSTOM_NOTE)),
    }
}

/// The embedded runtime takes both settings as startup flags: the caller
/// stores them and restarts the server.
pub fn embedded_config_applied(context_length: Option<u32>, gpu_value: Option<String>) -> (c: ConfigApplied)
    ensures
        c.context_length_applied == context_length,
        c.gpu_offload_applied == gpu_value,
        c.requires_reload,
        c.note matches Some(n) && n@ == EMBEDDED_NOTE@,
{
    ConfigApplied {
        context_length_applied: context_length,
        gpu_offload_applied: gpu_value,
        requires_reload: true,
        note: Some(owned(EMBEDDED_NOTE)),
    }
}

} // verus!
