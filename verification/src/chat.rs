//! Chats, their messages, and the streaming of one answer to the screen.
//!
//! An answer streams as chunks; whatever reached the screen is what gets
//! saved, whether the answer completed, was cancelled or failed.

use vstd::prelude::*;
use crate::providers::{provider_error_text, ProviderError};
use crate::stamp::{new_id, now_rfc3339};
use crate::stream::ChatToken;
use crate::text::{owned, push_str};

verus! {

/// A conversation.
#[derive(Debug)]
pub struct Chat {
    pub id: String,
    pub title: String,
    pub created_at: String,
    pub updated_at: String,
    /// Whether this chat also searches the global knowledge base.
    pub use_global_rag: bool,
}

/// One stored turn of a conversation.
#[derive(Debug)]
pub struct Message {
    pub id: String,
    pub chat_id: String,
    pub role: String,
    pub content: String,
    pub created_at: String,
}

impl Message {
    /// A new message with a fresh identifier, stamped now.
    pub fn create(chat_id: &str, role: &str, content: &str) -> (m: Message)
        ensures
            m.chat_id@ == chat_id@,
            m.role@ == role@,
            m.content@ == content@,
            m.id@.len() == 36,
    {
        Message {
            id: new_id(),
            chat_id: owned(chat_id),
            role: owned(role),
            content: owned(content),
            created_at: now_rfc3339(),
        }
    }
}

/// A piece of the answer pushed to the screen while it streams.
#[derive(Debug)]
pub struct ChatStreamChunk {
    pub chat_id: String,
    pub message_id: String,
    pub delta: String,
    pub done: bool,
    pub error: Option<String>,
}

/// What the answer stream produced next.
#[derive(Debug)]
pub enum StreamEvent {
    /// The user cancelled the generation.
    Cancelled,
    /// The next item of the provider's stream.
    Item(Result<ChatToken, ProviderError>),
}

pub open spec fn concat_all(parts: Seq<Seq<char>>) -> Seq<char>
    decreases parts.len(),
{
    if parts.len() == 0 {
        Seq::empty()
    } else {
        concat_all(parts.drop_last()) + parts.last()
    }
}

/// One answer being streamed: the text shown so far, the error that ended
/// it, and whether it has ended.
pub struct Generation {
    chat_id: String,
    message_id: String,
    accumulated: String,
    error: Option<String>,
    finished: bool,
    shown: Ghost<Seq<Seq<char>>>,
}

/// What a finished generation leaves behind.
#[derive(Debug)]
pub struct GenerationOutcome {
    /// The answer to store as the assistant's turn, when any text arrived.
    pub answer: Option<String>,
    /// The closing chunk: no text, `done`, and the error if one ended it.
    pub last_chunk: ChatStreamChunk,
    /// The id of the user's message, or the error the answer ended with.
    pub result: Result<String, String>,
}

impl Generation {
    /// The deltas pushed to the screen so far, in order.
    pub closed spec fn shown(&self) -> Seq<Seq<char>> {
        self.shown@
    }

    pub closed spec fn is_finished(&self) -> bool {
        self.finished
    }

    pub closed spec fn ending_error(&self) -> Option<Seq<char>> {
        match self.error {
            Some(e) => Some(e@),
            None => None,
        }
    }

    pub closed spec fn ids(&self) -> (Seq<char>, Seq<char>) {
        (self.chat_id@, self.message_id@)
    }

    /// The text kept so far is exactly what was shown, and only an ended
    /// answer carries an error.
    pub closed spec fn well_formed(&self) -> bool {
        &&& self.accumulated@ == concat_all(self.shown@)
        &&& self.error is Some ==> self.finished
    }

    pub fn new(chat_id: String, message_id: String) -> (g: Generation)
        ensures
            g.well_formed(),
            g.shown() == Seq::<Seq<char>>::empty(),
            !g.is_finished(),
            g.ending_error() is None,
            g.ids() == (chat_id@, message_id@),
    {
        Generation {
            chat_id,
            message_id,
            accumulated: String::new(),
            error: None,
            finished: false,
            shown: Ghost(Seq::empty()),
        }
    }

    /// Takes the next event. A non-empty delta is shown and kept; a `done`
    /// token, an error or a cancellation ends the answer; once it has ended,
    /// further events change nothing.
    pub fn on_event(&mut self, event: StreamEvent) -> (chunk: Option<ChatStreamChunk>)
        requires
            old(self).well_formed(),
        ensures
            final(self).well_formed(),
            final(self).ids() == old(self).ids(),
            old(self).is_finished() ==> chunk is None && final(self).shown() == old(self).shown()
                && final(self).is_finished() && final(self).ending_error() == old(self).ending_error(),
            !old(self).is_finished() ==> match event {
                StreamEvent::Cancelled => {
                    &&& chunk is None
                    &&& final(self).shown() == old(self).shown()
                    &&& final(self).is_finished()
                    &&& final(self).ending_error() is None
                },
                StreamEvent::Item(Ok(t)) => {
                    &&& if t.delta@.len() > 0 {
                        &&& chunk matches Some(c) && c.delta@ == t.delta@ && !c.done && c.error is None
                            && (c.chat_id@, c.message_id@) == old(self).ids()
                        &&& final(self).shown() == old(self).shown().push(t.delta@)
                    } else {
                        chunk is None && final(self).shown() == old(self).shown()
                    }
                    &&& final(self).is_finished() == t.done
                    &&& final(self).ending_error() is None
                },
                StreamEvent::Item(Err(e)) => {
                    &&& chunk is None
                    &&& final(self).shown() == old(self).shown()
                    &&& final(self).is_finished()
                    &&& final(self).ending_error() == Some(provider_error_text(e))
                },
            },
    {
        if self.finished {
            return None;
        }
        match event {
            StreamEvent::Cancelled => {
                self.finished = true;
                None
            },
            StreamEvent::Item(Ok(t)) => {
                let mut chunk = None;
                if !t.delta.as_str().is_empty() {
                    let ghost before = self.shown@;
                    push_str(&mut self.accumulated, t.delta.as_str());
                    self.shown = Ghost(self.shown@.push(t.delta@));
                    proof {
                        assert(self.shown@.drop_last() =~= before);
                    }
                    chunk = Some(ChatStreamChunk {
                        chat_id: self.chat_id.clone(),
                        message_id: self.message_id.clone(),
                        delta: t.delta,
                        done: false,
                        error: None,
                    });
                }
                if t.done {
                    self.finished = true;
                }
                chunk
            },
            StreamEvent::Item(Err(e)) => {
                self.error = Some(e.message());
                self.finished = true;
                None
            },
        }
    }

    /// Ends the generation. What was shown is stored, even when the answer
    /// was cancelled or failed part way; the closing chunk carries the error.
    pub fn finish(self, user_message_id: String) -> (o: GenerationOutcome)
        requires
            self.well_formed(),
        ensures
            concat_all(self.shown()).len() > 0 ==> (o.answer matches Some(a) && a@ == concat_all(self.shown())),
            concat_all(self.shown()).len() == 0 ==> o.answer is None,
            (o.last_chunk.chat_id@, o.last_chunk.message_id@) == self.ids(),
            o.last_chunk.delta@ == Seq::<char>::empty(),
            o.last_chunk.done,
            match self.ending_error() {
                Some(e) => o.last_chunk.error matches Some(x) && x@ == e && (o.result matches Err(y) && y@ == e),
                None => o.last_chunk.error is None && (o.result matches Ok(id) && id@ == user_message_id@),
            },
    {
        let answer = if self.accumulated.as_str().is_empty() {
            None
        } else {
            Some(self.accumulated)
        };
        let error_copy = match &self.error {
            Some(e) => Some(e.clone()),
            None => None,
        };
        let last_chunk = ChatStreamChunk {
            chat_id: self.chat_id,
            message_id: self.message_id,
            delta: String::new(),
            done: true,
            error: error_copy,
        };
        let result = match self.error {
            Some(e) => Err(e),
            None => Ok(user_message_id),
        };
        GenerationOutcome { answer, last_chunk, result }
    }
}

} // verus!
