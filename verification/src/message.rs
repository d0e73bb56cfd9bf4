//! The unified message model: one representation of conversation turns for every
//! provider. Providers translate to and from their own wire formats.

use vstd::prelude::*;

use crate::json::{json_equiv, Json, JsonValue};

verus! {

/// Who a message is from.
#[derive(Debug, Clone, Copy, PartialEq, Eq, Hash, Structural)]
pub enum Role {
    System,
    User,
    Assistant,
    Tool,
}

/// One piece of message content: text, a tool call, or a tool's result.
#[derive(Debug)]
pub enum ContentBlock {
    Text(String),
    ToolCall { id: String, name: String, args: JsonValue },
    ToolResult { id: String, content: String, is_error: bool },
}

/// A message: who sent it and its content blocks.
#[derive(Debug)]
pub struct Message {
    pub role: Role,
    pub content: Vec<ContentBlock>,
}

/// Model of a [`ContentBlock`].
pub enum BlockModel {
    Text(Seq<char>),
    ToolCall { id: Seq<char>, name: Seq<char>, args: Json },
    ToolResult { id: Seq<char>, content: Seq<char>, is_error: bool },
}

/// Model of a [`Message`].
pub struct MessageModel {
    pub role: Role,
    pub content: Seq<BlockModel>,
}

impl View for ContentBlock {
    type V = BlockModel;

    open spec fn view(&self) -> BlockModel {
        match self {
            ContentBlock::Text(t) => BlockModel::Text(t@),
            ContentBlock::ToolCall { id, name, args } => BlockModel::ToolCall {
                id: id@,
                name: name@,
                args: args@,
            },
            ContentBlock::ToolResult { id, content, is_error } => BlockModel::ToolResult {
                id: id@,
                content: content@,
                is_error: *is_error,
            },
        }
    }
}

/// The models of a sequence of blocks.
pub open spec fn blocks_view(blocks: Seq<ContentBlock>) -> Seq<BlockModel> {
    blocks.map_values(|b: ContentBlock| b@)
}

impl View for Message {
    type V = MessageModel;

    open spec fn view(&self) -> MessageModel {
        MessageModel { role: self.role, content: blocks_view(self.content@) }
    }
}

/// The models of a sequence of messages.
pub open spec fn messages_view(messages: Seq<Message>) -> Seq<MessageModel> {
    messages.map_values(|m: Message| m@)
}

/// The texts of the `Text` blocks, in order.
pub open spec fn text_parts(blocks: Seq<BlockModel>) -> Seq<Seq<char>>
    decreases blocks.len(),
{
    if blocks.len() == 0 {
        Seq::empty()
    } else {
        let before = text_parts(blocks.drop_last());
        match blocks.last() {
            BlockModel::Text(t) => before.push(t),
            _ => before,
        }
    }
}

/// Parts joined with a newline between each two.
pub open spec fn join_lines(parts: Seq<Seq<char>>) -> Seq<char>
    decreases parts.len(),
{
    if parts.len() == 0 {
        Seq::empty()
    } else if parts.len() == 1 {
        parts[0]
    } else {
        join_lines(parts.drop_last()) + seq!['\n'] + parts.last()
    }
}

pub proof fn lemma_join_push(p: Seq<Seq<char>>, t: Seq<char>)
    ensures
        join_lines(p.push(t)) == (if p.len() == 0 {
            t
        } else {
            join_lines(p) + seq!['\n'] + t
        }),
{
    assert(p.push(t).drop_last() =~= p);
}

/// The text of a message: its text blocks joined by newlines.
pub open spec fn message_text(m: MessageModel) -> Seq<char> {
    join_lines(text_parts(m.content))
}

/// Whether a message holds a tool call.
pub open spec fn has_tool_call(m: MessageModel) -> bool {
    exists|i: int| 0 <= i < m.content.len() && (#[trigger] m.content[i]) is ToolCall
}

/// A message with one text block.
pub open spec fn text_message(role: Role, text: Seq<char>) -> MessageModel {
    MessageModel { role, content: seq![BlockModel::Text(text)] }
}

impl ContentBlock {
    /// A copy of the block.
    pub fn duplicate(&self) -> (r: ContentBlock)
        ensures
            r@ == self@,
    {
        match self {
            ContentBlock::Text(t) => ContentBlock::Text(t.clone()),
            ContentBlock::ToolCall { id, name, args } => ContentBlock::ToolCall {
                id: id.clone(),
                name: name.clone(),
                args: args.duplicate(),
            },
            ContentBlock::ToolResult { id, content, is_error } => ContentBlock::ToolResult {
                id: id.clone(),
                content: content.clone(),
                is_error: *is_error,
            },
        }
    }
}

/// A copy of a sequence of blocks.
pub fn duplicate_blocks(blocks: &Vec<ContentBlock>) -> (r: Vec<ContentBlock>)
    ensures
        blocks_view(r@) == blocks_view(blocks@),
{
    let mut out: Vec<ContentBlock> = Vec::new();
    let mut i: usize = 0;
    while i < blocks.len()
        invariant
            i <= blocks@.len(),
            out@.len() == i,
            forall|j: int| 0 <= j < i ==> #[trigger] out@[j]@ == blocks@[j]@,
        decreases blocks@.len() - i,
    {
        out.push(blocks[i].duplicate());
        i = i + 1;
    }
    assert(blocks_view(out@) =~= blocks_view(blocks@));
    out
}

impl Message {
    /// A system message with one text block.
    pub fn system(text: &str) -> (m: Message)
        ensures
            m@ == text_message(Role::System, text@),
    {
        let m = Message { role: Role::System, content: vec![ContentBlock::Text(String::from_str(text))] };
        assert(m@.content =~= seq![BlockModel::Text(text@)]);
        m
    }

    /// A user message with one text block.
    pub fn user(text: &str) -> (m: Message)
        ensures
            m@ == text_message(Role::User, text@),
    {
        let m = Message { role: Role::User, content: vec![ContentBlock::Text(String::from_str(text))] };
        assert(m@.content =~= seq![BlockModel::Text(text@)]);
        m
    }

    /// An assistant message with the given blocks.
    pub fn assistant(blocks: Vec<ContentBlock>) -> (m: Message)
        ensures
            m@ == (MessageModel { role: Role::Assistant, content: blocks_view(blocks@) }),
    {
        Message { role: Role::Assistant, content: blocks }
    }

    /// A tool message holding one block.
    pub fn tool(block: ContentBlock) -> (m: Message)
        ensures
            m@ == (MessageModel { role: Role::Tool, content: seq![block@] }),
    {
        let ghost b = block@;
        let m = Message { role: Role::Tool, content: vec![block] };
        assert(m@.content =~= seq![b]);
        m
    }

    /// The text blocks joined with newlines, so adjacent paragraphs stay apart.
    pub fn text(&self) -> (r: String)
        ensures
            r@ == message_text(self@),
    {
        let mut r = String::new();
        let mut first = true;
        let ghost content = self@.content;
        let mut i: usize = 0;
        proof {
            reveal_strlit("\n");
            assert(content.take(0) =~= Seq::<BlockModel>::empty());
        }
        while i < self.content.len()
            invariant
                i <= self.content@.len(),
                content == blocks_view(self.content@),
                first == (text_parts(content.take(i as int)).len() == 0),
                r@ == join_lines(text_parts(content.take(i as int))),
                "\n"@ == seq!['\n'],
            decreases self.content@.len() - i,
        {
            assert(content.take(i + 1).drop_last() =~= content.take(i as int));
            assert(content.take(i + 1).last() == self.content@[i as int]@);
            match &self.content[i] {
                ContentBlock::Text(t) => {
                    proof {
                        lemma_join_push(text_parts(content.take(i as int)), t@);
                    }
                    if !first {
                        r.append("\n");
                    }
                    r.append(t.as_str());
                    first = false;
                },
                _ => {},
            }
            i = i + 1;
        }
        assert(content.take(self.content@.len() as int) =~= content);
        r
    }

    /// Whether any block is a tool call.
    pub fn has_tool_calls(&self) -> (r: bool)
        ensures
            r == has_tool_call(self@),
    {
        let mut i: usize = 0;
        while i < self.content.len()
            invariant
                i <= self.content@.len(),
                forall|j: int| 0 <= j < i ==> !(self.content@[j]@ is ToolCall),
            decreases self.content@.len() - i,
        {
            match &self.content[i] {
                ContentBlock::ToolCall { .. } => {
                    assert(self@.content[i as int] is ToolCall);
                    return true;
                },
                _ => {},
            }
            i = i + 1;
        }
        assert forall|j: int| 0 <= j < self@.content.len() implies !(#[trigger] self@.content[j] is ToolCall) by {
            assert(self@.content[j] == self.content@[j]@);
        }
        false
    }

    /// A copy of the message.
    pub fn duplicate(&self) -> (r: Message)
        ensures
            r@ == self@,
    {
        Message { role: self.role, content: duplicate_blocks(&self.content) }
    }
}

/// A copy of a sequence of messages.
pub fn duplicate_messages(messages: &Vec<Message>) -> (r: Vec<Message>)
    ensures
        messages_view(r@) == messages_view(messages@),
{
    let mut out: Vec<Message> = Vec::new();
    let mut i: usize = 0;
    while i < messages.len()
        invariant
            i <= messages@.len(),
            out@.len() == i,
            forall|j: int| 0 <= j < i ==> #[trigger] out@[j]@ == messages@[j]@,
        decreases messages@.len() - i,
    {
        out.push(messages[i].duplicate());
        i = i + 1;
    }
    assert(messages_view(out@) =~= messages_view(messages@));
    out
}

impl Clone for ContentBlock {
    fn clone(&self) -> (r: Self)
        ensures
            r@ == self@,
    {
        self.duplicate()
    }
}

impl Clone for Message {
    fn clone(&self) -> (r: Self)
        ensures
            r@ == self@,
    {
        self.duplicate()
    }
}

/// Whether two blocks are equal: tool calls with the same id and name and
/// arguments equal as JSON values; any other block as it is.
pub open spec fn block_equiv(a: BlockModel, b: BlockModel) -> bool {
    match (a, b) {
        (
            BlockModel::ToolCall { id: i1, name: n1, args: a1 },
            BlockModel::ToolCall { id: i2, name: n2, args: a2 },
        ) => i1 == i2 && n1 == n2 && json_equiv(a1, a2),
        _ => a == b,
    }
}

/// Whether two messages are equal: the same role, and their blocks equal one by one.
pub open spec fn message_equiv(a: MessageModel, b: MessageModel) -> bool {
    &&& a.role == b.role
    &&& a.content.len() == b.content.len()
    &&& forall|i: int| 0 <= i < a.content.len() ==> block_equiv(#[trigger] a.content[i], b.content[i])
}

impl PartialEq for ContentBlock {
    fn eq(&self, other: &Self) -> (r: bool) {
        match (self, other) {
            (ContentBlock::Text(a), ContentBlock::Text(b)) => *a == *b,
            (
                ContentBlock::ToolCall { id: i1, name: n1, args: a1 },
                ContentBlock::ToolCall { id: i2, name: n2, args: a2 },
            ) => *i1 == *i2 && *n1 == *n2 && *a1 == *a2,
            (
                ContentBlock::ToolResult { id: i1, content: c1, is_error: e1 },
                ContentBlock::ToolResult { id: i2, content: c2, is_error: e2 },
            ) => *i1 == *i2 && *c1 == *c2 && *e1 == *e2,
            _ => false,
        }
    }
}

impl vstd::std_specs::cmp::PartialEqSpecImpl for ContentBlock {
    open spec fn obeys_eq_spec() -> bool {
        true
    }

    open spec fn eq_spec(&self, other: &ContentBlock) -> bool {
        block_equiv(self@, other@)
    }
}

impl PartialEq for Message {
    fn eq(&self, other: &Self) -> (r: bool) {
        if self.role != other.role || self.content.len() != other.content.len() {
            return false;
        }
        let mut i: usize = 0;
        while i < self.content.len()
            invariant
                i <= self.content@.len(),
                self.content@.len() == other.content@.len(),
                self.role == other.role,
                forall|j: int|
                    0 <= j < i ==> block_equiv((#[trigger] self.content@[j])@, other.content@[j]@),
            decreases self.content@.len() - i,
        {
            if !(self.content[i] == other.content[i]) {
                assert(self@.content[i as int] == self.content@[i as int]@);
                assert(other@.content[i as int] == other.content@[i as int]@);
                return false;
            }
            i = i + 1;
        }
        assert forall|j: int| 0 <= j < self@.content.len() implies block_equiv(
            #[trigger] self@.content[j],
            other@.content[j],
        ) by {
            assert(self@.content[j] == self.content@[j]@);
            assert(other@.content[j] == other.content@[j]@);
        }
        true
    }
}

impl vstd::std_specs::cmp::PartialEqSpecImpl for Message {
    open spec fn obeys_eq_spec() -> bool {
        true
    }

    open spec fn eq_spec(&self, other: &Message) -> bool {
        message_equiv(self@, other@)
    }
}

} // verus!
