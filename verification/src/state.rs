//! Reducer-core application state: a counter plus a capped message log.

use vstd::prelude::*;

verus! {

/// Maximum number of messages the state keeps; the oldest is evicted first.
pub const MAX_MESSAGES: usize = 500;

/// Author capacity of the fixed-buffer message form, in bytes.
pub const AUTHOR_CAP: usize = 32;

/// Text capacity of the fixed-buffer message form, in bytes.
pub const TEXT_CAP: usize = 256;

/// One chat message: an author and a text, both as raw bytes.
pub struct Message {
    pub author: Vec<u8>,
    pub text: Vec<u8>,
}

impl Message {
    /// A message holding the whole author and text.
    pub fn new(author: &[u8], text: &[u8]) -> (m: Message)
        ensures
            m.author@ == author@,
            m.text@ == text@,
    {
        let a = crate::transport::slice_take(author, author.len());
        let t = crate::transport::slice_take(text, text.len());
        proof {
            assert(author@.take(author@.len() as int) =~= author@);
            assert(text@.take(text@.len() as int) =~= text@);
        }
        Message { author: a, text: t }
    }

    /// A message with no author and no text.
    pub fn empty() -> (m: Message)
        ensures
            m.author@ =~= Seq::<u8>::empty(),
            m.text@ =~= Seq::<u8>::empty(),
    {
        Message { author: Vec::new(), text: Vec::new() }
    }

    /// Fill a fixed-buffer message: the author and text are silently
    /// truncated to the buffer capacities.
    pub fn set(&mut self, author: &[u8], text: &[u8])
        ensures
            final(self).author@ == author@.take(
                vstd::math::min(author@.len() as int, AUTHOR_CAP as int),
            ),
            final(self).text@ == text@.take(
                vstd::math::min(text@.len() as int, TEXT_CAP as int),
            ),
    {
        let alen: usize = if author.len() > AUTHOR_CAP {
            AUTHOR_CAP
        } else {
            author.len()
        };
        let tlen: usize = if text.len() > TEXT_CAP {
            TEXT_CAP
        } else {
            text.len()
        };
        self.author = crate::transport::slice_take(author, alen);
        self.text = crate::transport::slice_take(text, tlen);
    }

    pub fn author_bytes(&self) -> (r: &Vec<u8>)
        ensures
            r@ == self.author@,
    {
        &self.author
    }

    pub fn text_bytes(&self) -> (r: &Vec<u8>)
        ensures
            r@ == self.text@,
    {
        &self.text
    }
}

/// Counter-and-messages application state for the reducer core.
pub struct AppState {
    pub count: i32,
    pub messages: Vec<Message>,
}

impl AppState {
    pub open spec fn wf(&self) -> bool {
        self.messages@.len() <= MAX_MESSAGES
    }

    pub fn new() -> (s: AppState)
        ensures
            s.wf(),
            s.count == 0,
            s.messages@ =~= Seq::<Message>::empty(),
    {
        AppState { count: 0, messages: Vec::new() }
    }

    pub fn msg_count(&self) -> (r: usize)
        ensures
            r == self.messages@.len(),
    {
        self.messages.len()
    }

    pub fn msg_at(&self, i: usize) -> (m: &Message)
        requires
            i < self.messages@.len(),
        ensures
            *m == self.messages@[i as int],
    {
        &self.messages[i]
    }

    /// Append a message; when the log is full the oldest message leaves.
    pub fn push_message(&mut self, author: &[u8], text: &[u8])
        requires
            old(self).wf(),
        ensures
            final(self).wf(),
            final(self).count == old(self).count,
            ({
                let grown = old(self).messages@.push(final(self).messages@.last());
                &&& final(self).messages@.last().author@ == author@
                &&& final(self).messages@.last().text@ == text@
                &&& final(self).messages@ == if grown.len() > MAX_MESSAGES {
                    grown.drop_first()
                } else {
                    grown
                }
            }),
    {
        self.messages.push(Message::new(author, text));
        if self.messages.len() > MAX_MESSAGES {
            self.messages.remove(0);
            proof {
                assert(self.messages@ =~= old(self).messages@.push(
                    self.messages@.last(),
                ).drop_first());
            }
        }
    }
}

impl Default for AppState {
    fn default() -> (s: AppState)
        ensures
            s.wf(),
            s.count == 0,
            s.messages@ =~= Seq::<Message>::empty(),
    {
        AppState::new()
    }
}

} // verus!
