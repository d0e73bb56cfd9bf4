//! Session state: one flat message history shared by every turn, and the count
//! of completed tool rounds. `history` and `turn` are the state a checkpoint needs.

use vstd::prelude::*;

use crate::message::{
    duplicate_messages, message_equiv, message_text, messages_view, Message, MessageModel, Role,
};

verus! {

/// Mutable state of the agent loop.
#[derive(Debug)]
pub struct Session {
    pub history: Vec<Message>,
    pub turn: u32,
}

/// Model of a [`Session`].
pub struct SessionModel {
    pub history: Seq<MessageModel>,
    pub turn: u32,
}

impl View for Session {
    type V = SessionModel;

    open spec fn view(&self) -> SessionModel {
        SessionModel { history: messages_view(self.history@), turn: self.turn }
    }
}

/// The last assistant message of a history, if any.
pub open spec fn last_assistant(history: Seq<MessageModel>) -> Option<MessageModel>
    decreases history.len(),
{
    if history.len() == 0 {
        None
    } else if history.last().role == Role::Assistant {
        Some(history.last())
    } else {
        last_assistant(history.drop_last())
    }
}

/// The text of the last assistant message, unless there is none or its text is empty.
pub open spec fn last_assistant_text_of(history: Seq<MessageModel>) -> Option<Seq<char>> {
    match last_assistant(history) {
        Some(m) => if message_text(m).len() == 0 {
            None
        } else {
            Some(message_text(m))
        },
        None => None,
    }
}

/// The view of an optional string.
pub open spec fn opt_text(o: Option<String>) -> Option<Seq<char>> {
    match o {
        Some(s) => Some(s@),
        None => None,
    }
}

/// After a message is appended, the partial answer (the last assistant text) is
/// that message's text when it is an assistant message with text, nothing when it
/// is an assistant message without text, and unchanged otherwise.
pub proof fn lemma_last_assistant_text_after_push(history: Seq<MessageModel>, m: MessageModel)
    ensures
        last_assistant_text_of(history.push(m)) == (if m.role == Role::Assistant {
            if message_text(m).len() == 0 {
                None
            } else {
                Some(message_text(m))
            }
        } else {
            last_assistant_text_of(history)
        }),
{
    assert(history.push(m).drop_last() =~= history);
}

impl Session {
    /// An empty session at turn 0.
    pub fn new() -> (s: Session)
        ensures
            s@.history == Seq::<MessageModel>::empty(),
            s@.turn == 0,
    {
        let s = Session { history: Vec::new(), turn: 0 };
        assert(s@.history =~= Seq::<MessageModel>::empty());
        s
    }

    /// A session at turn 0 with the given history.
    pub fn with_history(history: Vec<Message>) -> (s: Session)
        ensures
            s@.history == messages_view(history@),
            s@.turn == 0,
    {
        Session { history, turn: 0 }
    }

    /// Appends a message to the history.
    pub fn push(&mut self, message: Message)
        ensures
            final(self)@.history == old(self)@.history.push(message@),
            final(self)@.turn == old(self)@.turn,
    {
        let ghost m = message@;
        self.history.push(message);
        assert(self@.history =~= old(self)@.history.push(m));
    }

    /// Whether the history is empty.
    pub fn is_empty(&self) -> (r: bool)
        ensures
            r == (self@.history.len() == 0),
    {
        self.history.len() == 0
    }

    /// The text blocks of the last assistant message, scanning from the end;
    /// `None` when there is no assistant message or its text is empty.
    pub fn last_assistant_text(&self) -> (r: Option<String>)
        ensures
            opt_text(r) == last_assistant_text_of(self@.history),
    {
        let ghost h = self@.history;
        let mut i: usize = self.history.len();
        assert(h.take(i as int) =~= h);
        while i > 0
            invariant
                i <= self.history@.len(),
                h == self@.history,
                h.len() == self.history@.len(),
                last_assistant(h) == last_assistant(h.take(i as int)),
            decreases i,
        {
            assert(h.take(i as int).drop_last() =~= h.take(i - 1));
            assert(h.take(i as int).last() == self.history@[i - 1]@);
            if self.history[i - 1].role == Role::Assistant {
                let text = self.history[i - 1].text();
                if text.as_str().is_empty() {
                    return None;
                }
                return Some(text);
            }
            i = i - 1;
        }
        None
    }

    /// A copy of the session.
    pub fn duplicate(&self) -> (r: Session)
        ensures
            r@ == self@,
    {
        Session { history: duplicate_messages(&self.history), turn: self.turn }
    }
}

impl Default for Session {
    fn default() -> (s: Self)
        ensures
            s@.history == Seq::<MessageModel>::empty(),
            s@.turn == 0,
    {
        Self::new()
    }
}

impl Clone for Session {
    fn clone(&self) -> (r: Self)
        ensures
            r@ == self@,
    {
        self.duplicate()
    }
}

/// Whether two sessions are equal: the same turn, and their messages equal one by one.
pub open spec fn session_equiv(a: SessionModel, b: SessionModel) -> bool {
    &&& a.turn == b.turn
    &&& a.history.len() == b.history.len()
    &&& forall|i: int| 0 <= i < a.history.len() ==> message_equiv(#[trigger] a.history[i], b.history[i])
}

impl PartialEq for Session {
    fn eq(&self, other: &Self) -> (r: bool) {
        if self.turn != other.turn || self.history.len() != other.history.len() {
            return false;
        }
        let mut i: usize = 0;
        while i < self.history.len()
            invariant
                i <= self.history@.len(),
                self.history@.len() == other.history@.len(),
                self.turn == other.turn,
                forall|j: int|
                    0 <= j < i ==> message_equiv((#[trigger] self.history@[j])@, other.history@[j]@),
            decreases self.history@.len() - i,
        {
            if !(self.history[i] == other.history[i]) {
                assert(self@.history[i as int] == self.history@[i as int]@);
                assert(other@.history[i as int] == other.history@[i as int]@);
                return false;
            }
            i = i + 1;
        }
        assert forall|j: int| 0 <= j < self@.history.len() implies message_equiv(
            #[trigger] self@.history[j],
            other@.history[j],
        ) by {
            assert(self@.history[j] == self.history@[j]@);
            assert(other@.history[j] == other.history@[j]@);
        }
        true
    }
}

impl vstd::std_specs::cmp::PartialEqSpecImpl for Session {
    open spec fn obeys_eq_spec() -> bool {
        true
    }

    open spec fn eq_spec(&self, other: &Session) -> bool {
        session_equiv(self@, other@)
    }
}

} // verus!
