//! Decoders for the streamed answers the providers send: OpenAI-style
//! server-sent events, Ollama's newline-delimited JSON, and Ollama's pull
//! progress lines.
//!
//! Bytes arrive in arbitrary pieces, so each decoder keeps the unfinished
//! tail and only hands out complete lines; where a read ends never changes
//! which lines come out.

use vstd::prelude::*;
use crate::providers::{line_progress, PullLine, PullProgress, ProviderError};
use crate::text::{chars_of, owned, push_char, starts_with, str_eq, str_starts_with, trim, trimmed, views};

verus! {

/// Splits `s` at each `sep`, continuing the unfinished piece `cur`. Returns
/// the completed pieces (ending with `sep` when `keep`) and the new
/// unfinished piece.
pub open spec fn split_from<T>(cur: Seq<T>, s: Seq<T>, sep: T, keep: bool) -> (Seq<Seq<T>>, Seq<T>)
    decreases s.len(),
{
    if s.len() == 0 {
        (Seq::empty(), cur)
    } else {
        let (done, part) = split_from(cur, s.drop_last(), sep, keep);
        if s.last() == sep {
            (done.push(if keep { part.push(sep) } else { part }), Seq::empty())
        } else {
            (done, part.push(s.last()))
        }
    }
}

/// Reading `a` and then `b` completes the same pieces, and leaves the same
/// tail, as reading `a + b` at once.
pub proof fn lemma_split_ignores_read_boundaries<T>(cur: Seq<T>, a: Seq<T>, b: Seq<T>, sep: T, keep: bool)
    ensures
        split_from(cur, a + b, sep, keep) == ({
            let (da, pa) = split_from(cur, a, sep, keep);
            let (db, pb) = split_from(pa, b, sep, keep);
            (da + db, pb)
        }),
    decreases b.len(),
{
    let (da, pa) = split_from(cur, a, sep, keep);
    if b.len() == 0 {
        assert(a + b =~= a);
        assert(da + Seq::<Seq<T>>::empty() =~= da);
    } else {
        assert((a + b).drop_last() =~= a + b.drop_last());
        assert((a + b).last() == b.last());
        lemma_split_ignores_read_boundaries(cur, a, b.drop_last(), sep, keep);
        let (db, pb) = split_from(pa, b.drop_last(), sep, keep);
        assert((da + db).push(if keep { pb.push(sep) } else { pb }) =~= da + db.push(if keep { pb.push(sep) } else { pb }));
    }
}

/// What `String::from_utf8_lossy` makes of a byte sequence.
pub uninterp spec fn utf8_lossy(bytes: Seq<u8>) -> Seq<char>;

/// `String::from_utf8_lossy`: the bytes as text, each invalid sequence
/// replaced by U+FFFD. The contract only names the result.
#[verifier::external_body]
fn decode_lossy(bytes: &[u8]) -> (s: String)
    ensures
        s@ == utf8_lossy(bytes@),
{
    String::from_utf8_lossy(bytes).into_owned()
}

/// Complete lines out of text that arrives in pieces; the unfinished tail
/// waits for the rest.
#[derive(Debug)]
pub struct LineBuffer {
    pending: String,
}

impl LineBuffer {
    /// The text received after the last complete line.
    pub closed spec fn pending(&self) -> Seq<char> {
        self.pending@
    }

    pub fn new() -> (b: LineBuffer)
        ensures
            b.pending() == Seq::<char>::empty(),
    {
        LineBuffer { pending: String::new() }
    }

    /// Adds `text` and returns the lines it completed, without their `\n`.
    pub fn push_text(&mut self, text: &str) -> (lines: Vec<String>)
        ensures
            (views(lines@), final(self).pending()) == split_from(old(self).pending(), text@, '\n', false),
    {
        let v = chars_of(text);
        let mut cur = String::new();
        std::mem::swap(&mut cur, &mut self.pending);
        let ghost start = cur@;
        let mut lines: Vec<String> = Vec::new();
        let mut i: usize = 0;
        assert(v@.take(0) =~= Seq::<char>::empty());
        while i < v.len()
            invariant
                i <= v@.len(),
                v@ == text@,
                start == old(self).pending(),
                (views(lines@), cur@) == split_from(start, v@.take(i as int), '\n', false),
            decreases v@.len() - i,
        {
            let c = v[i];
            proof {
                assert(v@.take(i + 1).drop_last() =~= v@.take(i as int));
                assert(v@.take(i + 1).last() == c);
            }
            if c == '\n' {
                let mut done = String::new();
                std::mem::swap(&mut done, &mut cur);
                lines.push(done);
                proof {
                    assert(views(lines@) =~= views(lines@.drop_last()).push(lines@.last()@));
                }
            } else {
                push_char(&mut cur, c);
            }
            i = i + 1;
        }
        assert(v@.take(v@.len() as int) =~= v@);
        self.pending = cur;
        lines
    }
}

/// One answer token: the text to append, or the end of the answer.
#[derive(Debug)]
pub struct ChatToken {
    pub delta: String,
    pub done: bool,
}

/// A server-sent event the chat cares about.
#[derive(Debug)]
pub enum Frame {
    /// `data: [DONE]`: the answer is complete.
    Done,
    /// The JSON payload of a `data:` line.
    Data(String),
}

pub enum FrameView {
    Done,
    Data(Seq<char>),
}

impl View for Frame {
    type V = FrameView;

    open spec fn view(&self) -> FrameView {
        match self {
            Frame::Done => FrameView::Done,
            Frame::Data(p) => FrameView::Data(p@),
        }
    }
}

pub open spec fn frames_view(fs: Seq<Frame>) -> Seq<FrameView> {
    fs.map_values(|f: Frame| f@)
}

/// What a line of the event stream means: lines are trimmed, only `data:`
/// lines count, and their trimmed payload is either `[DONE]` or JSON.
pub open spec fn frame_of(line: Seq<char>) -> Option<FrameView> {
    let t = trimmed(line);
    if starts_with(t, "data:"@) {
        let payload = trimmed(t.skip(5));
        if payload == "[DONE]"@ {
            Some(FrameView::Done)
        } else {
            Some(FrameView::Data(payload))
        }
    } else {
        None
    }
}

pub open spec fn frames_of(lines: Seq<Seq<char>>) -> Seq<FrameView>
    decreases lines.len(),
{
    if lines.len() == 0 {
        Seq::empty()
    } else {
        let rest = frames_of(lines.drop_last());
        match frame_of(lines.last()) {
            Some(f) => rest.push(f),
            None => rest,
        }
    }
}

/// The frames of two runs of lines are the frames of each, in order.
pub proof fn lemma_frames_of_concat(a: Seq<Seq<char>>, b: Seq<Seq<char>>)
    ensures
        frames_of(a + b) == frames_of(a) + frames_of(b),
    decreases b.len(),
{
    if b.len() == 0 {
        assert(a + b =~= a);
        assert(frames_of(a) + Seq::<FrameView>::empty() =~= frames_of(a));
    } else {
        assert((a + b).drop_last() =~= a + b.drop_last());
        assert((a + b).last() == b.last());
        lemma_frames_of_concat(a, b.drop_last());
        match frame_of(b.last()) {
            Some(f) => assert((frames_of(a) + frames_of(b.drop_last())).push(f) =~= frames_of(a) + frames_of(b.drop_last()).push(f)),
            None => {},
        }
    }
}

/// The meaning of one line of the event stream.
pub fn sse_frame(line: &str) -> (f: Option<Frame>)
    ensures
        match (f, frame_of(line@)) {
            (Some(a), Some(b)) => a@ == b,
            (None, None) => true,
            _ => false,
        },
{
    let t = trim(line);
    if !str_starts_with(t.as_str(), "data:") {
        return None;
    }
    let v = chars_of(t.as_str());
    proof {
        reveal_strlit("data:");
    }
    let rest = crate::text::chars_slice_string(&v, 5, v.len());
    assert(rest@ =~= t@.skip(5));
    let payload = trim(rest.as_str());
    if str_eq(payload.as_str(), "[DONE]") {
        Some(Frame::Done)
    } else {
        Some(Frame::Data(payload))
    }
}

fn frames_from_lines(lines: Vec<String>) -> (fs: Vec<Frame>)
    ensures
        frames_view(fs@) == frames_of(views(lines@)),
{
    let mut fs: Vec<Frame> = Vec::new();
    let mut i: usize = 0;
    assert(views(lines@).take(0) =~= Seq::<Seq<char>>::empty());
    while i < lines.len()
        invariant
            i <= lines@.len(),
            frames_view(fs@) == frames_of(views(lines@).take(i as int)),
        decreases lines@.len() - i,
    {
        proof {
            assert(views(lines@).take(i + 1).drop_last() =~= views(lines@).take(i as int));
            assert(views(lines@).take(i + 1).last() == lines@[i as int]@);
        }
        match sse_frame(lines[i].as_str()) {
            Some(f) => {
                fs.push(f);
                assert(frames_view(fs@) =~= frames_view(fs@.drop_last()).push(fs@.last()@));
            },
            None => {},
        }
        i = i + 1;
    }
    assert(views(lines@).take(lines@.len() as int) =~= views(lines@));
    fs
}

/// Decodes the `text/event-stream` answer of an OpenAI-compatible server:
/// frames are `data: {json}` lines separated by blank lines, ending with
/// `data: [DONE]`.
#[derive(Debug)]
pub struct SseDecoder {
    lines: LineBuffer,
}

impl SseDecoder {
    pub closed spec fn pending(&self) -> Seq<char> {
        self.lines.pending()
    }

    pub fn new() -> (d: SseDecoder)
        ensures
            d.pending() == Seq::<char>::empty(),
    {
        SseDecoder { lines: LineBuffer::new() }
    }

    /// The frames completed by one read of the response body.
    pub fn feed(&mut self, bytes: &[u8]) -> (frames: Vec<Frame>)
        ensures
            ({
                let (lines, tail) = split_from(old(self).pending(), utf8_lossy(bytes@), '\n', false);
                &&& frames_view(frames@) == frames_of(lines)
                &&& final(self).pending() == tail
            }),
    {
        let text = decode_lossy(bytes);
        let lines = self.lines.push_text(text.as_str());
        frames_from_lines(lines)
    }
}

/// A frame split across reads decodes as if it had arrived whole: the frames
/// of two reads are the frames of their concatenated text.
pub proof fn lemma_frames_ignore_read_boundaries(pending: Seq<char>, a: Seq<char>, b: Seq<char>)
    ensures
        ({
            let (la, ta) = split_from(pending, a, '\n', false);
            let (lb, tb) = split_from(ta, b, '\n', false);
            let (lab, tab) = split_from(pending, a + b, '\n', false);
            frames_of(la) + frames_of(lb) == frames_of(lab) && tb == tab
        }),
{
    lemma_split_ignores_read_boundaries(pending, a, b, '\n', false);
    let (la, ta) = split_from(pending, a, '\n', false);
    let (lb, tb) = split_from(ta, b, '\n', false);
    lemma_frames_of_concat(la, lb);
}

/// The token for `data: [DONE]`: no text, end of the answer.
pub fn done_token() -> (t: ChatToken)
    ensures
        t.delta@ == Seq::<char>::empty(),
        t.done,
{
    ChatToken { delta: String::new(), done: true }
}

/// What a parsed `data:` payload yields: the first choice's delta content
/// when it is not empty, nothing for an empty or missing delta, and a parse
/// error for a payload that is not the expected JSON.
pub fn completion_token(parsed: Result<Option<String>, String>) -> (r: Option<Result<ChatToken, ProviderError>>)
    ensures
        match parsed {
            Ok(Some(d)) => if d@.len() > 0 {
                r matches Some(Ok(t)) && t.delta@ == d@ && !t.done
            } else {
                r is None
            },
            Ok(None) => r is None,
            Err(m) => r matches Some(Err(ProviderError::ParseError(e))) && e@ == m@,
        },
{
    match parsed {
        Ok(Some(d)) => {
            if !d.as_str().is_empty() {
                Some(Ok(ChatToken { delta: d, done: false }))
            } else {
                None
            }
        },
        Ok(None) => None,
        Err(m) => Some(Err(ProviderError::ParseError(m))),
    }
}

/// The non-empty trimmed lines, in order.
pub open spec fn payload_lines(lines: Seq<Seq<char>>) -> Seq<Seq<char>>
    decreases lines.len(),
{
    if lines.len() == 0 {
        Seq::empty()
    } else {
        let rest = payload_lines(lines.drop_last());
        let t = trimmed(lines.last());
        if t.len() > 0 { rest.push(t) } else { rest }
    }
}

pub proof fn lemma_payload_lines_concat(a: Seq<Seq<char>>, b: Seq<Seq<char>>)
    ensures
        payload_lines(a + b) == payload_lines(a) + payload_lines(b),
    decreases b.len(),
{
    if b.len() == 0 {
        assert(a + b =~= a);
        assert(payload_lines(a) + Seq::<Seq<char>>::empty() =~= payload_lines(a));
    } else {
        assert((a + b).drop_last() =~= a + b.drop_last());
        assert((a + b).last() == b.last());
        lemma_payload_lines_concat(a, b.drop_last());
        let t = trimmed(b.last());
        if t.len() > 0 {
            assert((payload_lines(a) + payload_lines(b.drop_last())).push(t) =~= payload_lines(a) + payload_lines(b.drop_last()).push(t));
        }
    }
}

/// A JSON line split across reads of Ollama's chat answer is handed out
/// whole: the lines of two reads are the lines of their concatenated text.
pub proof fn lemma_ndjson_ignores_read_boundaries(pending: Seq<char>, a: Seq<char>, b: Seq<char>)
    ensures
        ({
            let (la, ta) = split_from(pending, a, '\n', false);
            let (lb, tb) = split_from(ta, b, '\n', false);
            let (lab, tab) = split_from(pending, a + b, '\n', false);
            payload_lines(la) + payload_lines(lb) == payload_lines(lab) && tb == tab
        }),
{
    lemma_split_ignores_read_boundaries(pending, a, b, '\n', false);
    let (la, ta) = split_from(pending, a, '\n', false);
    let (lb, tb) = split_from(ta, b, '\n', false);
    lemma_payload_lines_concat(la, lb);
}

/// Decodes Ollama's chat answer: one JSON object per line. A JSON object can
/// straddle two reads, so only complete lines are handed out.
#[derive(Debug)]
pub struct NdjsonDecoder {
    lines: LineBuffer,
}

impl NdjsonDecoder {
    pub closed spec fn pending(&self) -> Seq<char> {
        self.lines.pending()
    }

    pub fn new() -> (d: NdjsonDecoder)
        ensures
            d.pending() == Seq::<char>::empty(),
    {
        NdjsonDecoder { lines: LineBuffer::new() }
    }

    /// The non-empty, trimmed lines completed by one read.
    pub fn feed(&mut self, bytes: &[u8]) -> (out: Vec<String>)
        ensures
            ({
                let (lines, tail) = split_from(old(self).pending(), utf8_lossy(bytes@), '\n', false);
                &&& views(out@) == payload_lines(lines)
                &&& final(self).pending() == tail
            }),
    {
        let text = decode_lossy(bytes);
        let lines = self.lines.push_text(text.as_str());
        let mut out: Vec<String> = Vec::new();
        let mut i: usize = 0;
        assert(views(lines@).take(0) =~= Seq::<Seq<char>>::empty());
        while i < lines.len()
            invariant
                i <= lines@.len(),
                views(out@) == payload_lines(views(lines@).take(i as int)),
            decreases lines@.len() - i,
        {
            proof {
                assert(views(lines@).take(i + 1).drop_last() =~= views(lines@).take(i as int));
                assert(views(lines@).take(i + 1).last() == lines@[i as int]@);
            }
            let t = trim(lines[i].as_str());
            if !t.as_str().is_empty() {
                out.push(t);
                assert(views(out@) =~= views(out@.drop_last()).push(out@.last()@));
            }
            i = i + 1;
        }
        assert(views(lines@).take(lines@.len() as int) =~= views(lines@));
        out
    }
}

/// What one parsed line of Ollama's chat stream yields: its message content
/// (empty when missing) as a token when that is non-empty or the line ends
/// the answer, nothing otherwise; a line that is not the expected JSON is a
/// parse error.
pub fn ollama_token(parsed: Result<(Option<String>, bool), String>) -> (r: Option<Result<ChatToken, ProviderError>>)
    ensures
        match parsed {
            Ok((content, done)) => {
                let delta = match content {
                    Some(c) => c@,
                    None => Seq::<char>::empty(),
                };
                if delta.len() > 0 || done {
                    r matches Some(Ok(t)) && t.delta@ == delta && t.done == done
                } else {
                    r is None
                }
            },
            Err(m) => r matches Some(Err(ProviderError::ParseError(e))) && e@ == m@,
        },
{
    match parsed {
        Ok((content, done)) => {
            let delta = match content {
                Some(c) => c,
                None => String::new(),
            };
            if !delta.as_str().is_empty() || done {
                Some(Ok(ChatToken { delta, done }))
            } else {
                None
            }
        },
        Err(m) => Some(Err(ProviderError::ParseError(m))),
    }
}

/// The progress lines in a run of complete byte lines: each decoded, trimmed,
/// and kept when not empty.
pub open spec fn pull_texts(lines: Seq<Seq<u8>>) -> Seq<Seq<char>>
    decreases lines.len(),
{
    if lines.len() == 0 {
        Seq::empty()
    } else {
        let rest = pull_texts(lines.drop_last());
        let t = trimmed(utf8_lossy(lines.last()));
        if t.len() > 0 { rest.push(t) } else { rest }
    }
}

pub open spec fn byte_lines_view(v: Seq<Vec<u8>>) -> Seq<Seq<u8>> {
    v.map_values(|l: Vec<u8>| l@)
}

/// Decodes the body of Ollama's `/api/pull`: one JSON progress object per
/// line. Lines are cut on the newline byte and decoded whole.
#[derive(Debug)]
pub struct PullDecoder {
    pending: Vec<u8>,
}

impl PullDecoder {
    pub closed spec fn pending(&self) -> Seq<u8> {
        self.pending@
    }

    pub fn new() -> (d: PullDecoder)
        ensures
            d.pending() == Seq::<u8>::empty(),
    {
        PullDecoder { pending: Vec::new() }
    }

    fn complete_lines(&mut self, chunk: &[u8]) -> (lines: Vec<Vec<u8>>)
        ensures
            (byte_lines_view(lines@), final(self).pending()) == split_from(old(self).pending(), chunk@, 10u8, true),
    {
        let mut cur: Vec<u8> = Vec::new();
        std::mem::swap(&mut cur, &mut self.pending);
        let ghost start = cur@;
        let mut lines: Vec<Vec<u8>> = Vec::new();
        let mut i: usize = 0;
        assert(chunk@.take(0) =~= Seq::<u8>::empty());
        while i < chunk.len()
            invariant
                i <= chunk@.len(),
                start == old(self).pending(),
                (byte_lines_view(lines@), cur@) == split_from(start, chunk@.take(i as int), 10u8, true),
            decreases chunk@.len() - i,
        {
            let b = chunk[i];
            proof {
                assert(chunk@.take(i + 1).drop_last() =~= chunk@.take(i as int));
                assert(chunk@.take(i + 1).last() == b);
            }
            cur.push(b);
            if b == 10u8 {
                let mut done: Vec<u8> = Vec::new();
                std::mem::swap(&mut done, &mut cur);
                lines.push(done);
                proof {
                    assert(byte_lines_view(lines@) =~= byte_lines_view(lines@.drop_last()).push(lines@.last()@));
                }
            }
            i = i + 1;
        }
        assert(chunk@.take(chunk@.len() as int) =~= chunk@);
        self.pending = cur;
        lines
    }

    /// The non-empty progress lines completed by one read.
    pub fn feed(&mut self, chunk: &[u8]) -> (out: Vec<String>)
        ensures
            ({
                let (lines, tail) = split_from(old(self).pending(), chunk@, 10u8, true);
                &&& views(out@) == pull_texts(lines)
                &&& final(self).pending() == tail
            }),
    {
        let lines = self.complete_lines(chunk);
        let mut out: Vec<String> = Vec::new();
        let mut i: usize = 0;
        assert(byte_lines_view(lines@).take(0) =~= Seq::<Seq<u8>>::empty());
        while i < lines.len()
            invariant
                i <= lines@.len(),
                views(out@) == pull_texts(byte_lines_view(lines@).take(i as int)),
            decreases lines@.len() - i,
        {
            proof {
                assert(byte_lines_view(lines@).take(i + 1).drop_last() =~= byte_lines_view(lines@).take(i as int));
                assert(byte_lines_view(lines@).take(i + 1).last() == lines@[i as int]@);
            }
            let text = decode_lossy(lines[i].as_slice());
            let t = trim(text.as_str());
            if !t.as_str().is_empty() {
                out.push(t);
                assert(views(out@) =~= views(out@.drop_last()).push(out@.last()@));
            }
            i = i + 1;
        }
        assert(byte_lines_view(lines@).take(lines@.len() as int) =~= byte_lines_view(lines@));
        out
    }
}

pub proof fn lemma_pull_texts_concat(a: Seq<Seq<u8>>, b: Seq<Seq<u8>>)
    ensures
        pull_texts(a + b) == pull_texts(a) + pull_texts(b),
    decreases b.len(),
{
    if b.len() == 0 {
        assert(a + b =~= a);
        assert(pull_texts(a) + Seq::<Seq<char>>::empty() =~= pull_texts(a));
    } else {
        assert((a + b).drop_last() =~= a + b.drop_last());
        assert((a + b).last() == b.last());
        lemma_pull_texts_concat(a, b.drop_last());
        let t = trimmed(utf8_lossy(b.last()));
        if t.len() > 0 {
            assert((pull_texts(a) + pull_texts(b.drop_last())).push(t) =~= pull_texts(a) + pull_texts(b.drop_last()).push(t));
        }
    }
}

/// Pull progress is cut on the newline byte before any decoding, so where
/// the reads end never changes the progress lines, byte for byte.
pub proof fn lemma_pull_lines_ignore_read_boundaries(pending: Seq<u8>, a: Seq<u8>, b: Seq<u8>)
    ensures
        ({
            let (la, ta) = split_from(pending, a, 10u8, true);
            let (lb, tb) = split_from(ta, b, 10u8, true);
            let (lab, tab) = split_from(pending, a + b, 10u8, true);
            pull_texts(la) + pull_texts(lb) == pull_texts(lab) && tb == tab
        }),
{
    lemma_split_ignores_read_boundaries(pending, a, b, 10u8, true);
    let (la, ta) = split_from(pending, a, 10u8, true);
    let (lb, tb) = split_from(ta, b, 10u8, true);
    lemma_pull_texts_concat(la, lb);
}

pub const PULL_FAILED: &'static str = "ollama reported an error while pulling";

/// What one parsed progress line means: the progress to report and, for an
/// error line, the error the download ends with.
pub fn pull_step(line: PullLine) -> (r: (PullProgress, Option<ProviderError>))
    ensures
        match line.error {
            Some(_) => r.1 matches Some(ProviderError::RequestFailed(m)) && m@ == PULL_FAILED@,
            None => r.1 is None,
        },
        r.0@ == line_progress(line),
{
    let is_error = line.error.is_some();
    let progress = line.into_progress();
    let stop = if is_error {
        Some(ProviderError::RequestFailed(owned(PULL_FAILED)))
    } else {
        None
    };
    (progress, stop)
}

} // verus!
