//! Actions: what the model asked to run, and the backend that extracts them.
//!
//! [`ActionBackend`] turns an assistant [`Message`] into executable [`Action`]s.
//! [`JsonToolCall`] extracts `ContentBlock::ToolCall` blocks; other backends can
//! implement the same trait without changing the loop.

use vstd::prelude::*;

use crate::error::ParseError;
use crate::json::{json_equiv, json_text, json_to_string, Json, JsonValue};
use crate::message::{has_tool_call, BlockModel, ContentBlock, Message, MessageModel, Role};

verus! {

/// A normalized tool invocation for the loop.
#[derive(Debug)]
pub struct Action {
    pub id: String,
    pub name: String,
    pub args: JsonValue,
}

/// Model of an [`Action`].
pub struct ActionModel {
    pub id: Seq<char>,
    pub name: Seq<char>,
    pub args: Json,
}

impl View for Action {
    type V = ActionModel;

    open spec fn view(&self) -> ActionModel {
        ActionModel { id: self.id@, name: self.name@, args: self.args@ }
    }
}

/// The models of a sequence of actions.
pub open spec fn actions_view(actions: Seq<Action>) -> Seq<ActionModel> {
    actions.map_values(|a: Action| a@)
}

/// Why an action is refused before it runs, if it is: a missing id, a missing
/// name, or arguments that are neither a JSON object nor `null`.
pub open spec fn validation_error(a: ActionModel) -> Option<Seq<char>> {
    if a.id.len() == 0 {
        Some("missing tool call id"@)
    } else if a.name.len() == 0 {
        Some("missing tool name"@)
    } else if !(a.args is Object || a.args is Null) {
        Some("tool arguments must be a JSON object, got: "@ + json_text(a.args))
    } else {
        None
    }
}

impl Action {
    /// An action with the given id, tool name and arguments.
    pub fn new(id: &str, name: &str, args: JsonValue) -> (a: Action)
        ensures
            a@ == (ActionModel { id: id@, name: name@, args: args@ }),
    {
        Action { id: String::from_str(id), name: String::from_str(name), args }
    }

    /// Checks an action before it runs. Failures become a parse-error tool result
    /// in the loop, never an `Err` of the loop.
    ///
    /// Arguments must be a JSON object (named arguments) or `null` (none); a bare
    /// string, number, boolean or array means the model did not wrap them.
    pub fn validate(&self) -> (r: Result<(), ParseError>)
        ensures
            match validation_error(self@) {
                None => r is Ok,
                Some(m) => r matches Err(ParseError::InvalidToolCall(msg)) && msg@ == m,
            },
    {
        if self.id.as_str().is_empty() {
            return Err(ParseError::InvalidToolCall(String::from_str("missing tool call id")));
        }
        if self.name.as_str().is_empty() {
            return Err(ParseError::InvalidToolCall(String::from_str("missing tool name")));
        }
        if !self.args.is_object_or_null() {
            let mut msg = String::from_str("tool arguments must be a JSON object, got: ");
            let text = json_to_string(&self.args);
            msg.append(text.as_str());
            return Err(ParseError::InvalidToolCall(msg));
        }
        Ok(())
    }

    /// A copy of the action.
    pub fn duplicate(&self) -> (r: Action)
        ensures
            r@ == self@,
    {
        Action { id: self.id.clone(), name: self.name.clone(), args: self.args.duplicate() }
    }
}

impl Clone for Action {
    fn clone(&self) -> (r: Self)
        ensures
            r@ == self@,
    {
        self.duplicate()
    }
}

/// Whether two actions are equal: the same id and tool name, and arguments equal
/// as JSON values.
pub open spec fn action_equiv(a: ActionModel, b: ActionModel) -> bool {
    a.id == b.id && a.name == b.name && json_equiv(a.args, b.args)
}

impl PartialEq for Action {
    fn eq(&self, other: &Self) -> (r: bool) {
        self.id == other.id && self.name == other.name && self.args == other.args
    }
}

impl vstd::std_specs::cmp::PartialEqSpecImpl for Action {
    open spec fn obeys_eq_spec() -> bool {
        true
    }

    open spec fn eq_spec(&self, other: &Action) -> bool {
        action_equiv(self@, other@)
    }
}

/// Turns model intent in an assistant message into actions. An empty result means
/// no tool calls, which ends the loop normally.
///
/// A backend says, by its own `parses`, which actions it may take from a message;
/// any, unless it says more.
pub trait ActionBackend {
    /// Whether `actions` are what this backend may take from the message `m`.
    open spec fn parses(&self, m: MessageModel, actions: Seq<ActionModel>) -> bool {
        true
    }

    fn parse_actions(&self, assistant_msg: &Message) -> (r: Vec<Action>)
        ensures
            self.parses(assistant_msg@, actions_view(r@)),
    ;
}

/// The actions of the tool-call blocks, in order.
pub open spec fn tool_call_actions(blocks: Seq<BlockModel>) -> Seq<ActionModel>
    decreases blocks.len(),
{
    if blocks.len() == 0 {
        Seq::empty()
    } else {
        let before = tool_call_actions(blocks.drop_last());
        match blocks.last() {
            BlockModel::ToolCall { id, name, args } => before.push(
                ActionModel { id, name, args },
            ),
            _ => before,
        }
    }
}

/// What [`JsonToolCall`] extracts: the tool calls of an assistant message, in
/// order; nothing from any other role.
pub open spec fn json_tool_calls(m: MessageModel) -> Seq<ActionModel> {
    if m.role == Role::Assistant {
        tool_call_actions(m.content)
    } else {
        Seq::empty()
    }
}

proof fn lemma_tool_call_actions_len(blocks: Seq<BlockModel>)
    ensures
        tool_call_actions(blocks).len() > 0 <==> exists|i: int|
            0 <= i < blocks.len() && (#[trigger] blocks[i]) is ToolCall,
    decreases blocks.len(),
{
    if blocks.len() > 0 {
        let d = blocks.drop_last();
        lemma_tool_call_actions_len(d);
        if exists|i: int| 0 <= i < d.len() && (#[trigger] d[i]) is ToolCall {
            let i = choose|i: int| 0 <= i < d.len() && (#[trigger] d[i]) is ToolCall;
            assert(blocks[i] == d[i]);
        }
        if exists|i: int| 0 <= i < blocks.len() && (#[trigger] blocks[i]) is ToolCall {
            let i = choose|i: int| 0 <= i < blocks.len() && (#[trigger] blocks[i]) is ToolCall;
            if i < d.len() {
                assert(d[i] == blocks[i]);
            }
        }
    }
}

/// The loop ends exactly when the model stops calling tools: an assistant message
/// yields actions if and only if it holds a tool call.
pub proof fn lemma_actions_iff_tool_calls(m: MessageModel)
    requires
        m.role == Role::Assistant,
    ensures
        json_tool_calls(m).len() > 0 <==> has_tool_call(m),
{
    lemma_tool_call_actions_len(m.content);
}

/// JSON tool-call backend: extracts `ContentBlock::ToolCall` blocks in order.
#[derive(Debug, Default, Clone, Copy, PartialEq, Eq, Structural)]
pub struct JsonToolCall;

impl ActionBackend for JsonToolCall {
    /// Exactly the tool calls of the message, in order.
    open spec fn parses(&self, m: MessageModel, actions: Seq<ActionModel>) -> bool {
        actions == json_tool_calls(m)
    }

    fn parse_actions(&self, assistant_msg: &Message) -> (r: Vec<Action>)
        ensures
            actions_view(r@) == json_tool_calls(assistant_msg@),
    {
        let mut out: Vec<Action> = Vec::new();
        if assistant_msg.role != Role::Assistant {
            assert(actions_view(out@) =~= Seq::<ActionModel>::empty());
            return out;
        }
        let ghost content = assistant_msg@.content;
        let mut i: usize = 0;
        assert(content.take(0) =~= Seq::<BlockModel>::empty());
        assert(actions_view(out@) =~= Seq::<ActionModel>::empty());
        while i < assistant_msg.content.len()
            invariant
                i <= assistant_msg.content@.len(),
                content == assistant_msg@.content,
                content.len() == assistant_msg.content@.len(),
                actions_view(out@) == tool_call_actions(content.take(i as int)),
            decreases assistant_msg.content@.len() - i,
        {
            assert(content.take(i + 1).drop_last() =~= content.take(i as int));
            assert(content.take(i + 1).last() == assistant_msg.content@[i as int]@);
            match &assistant_msg.content[i] {
                ContentBlock::ToolCall { id, name, args } => {
                    let a = Action { id: id.clone(), name: name.clone(), args: args.duplicate() };
                    let ghost before = out@;
                    out.push(a);
                    assert(actions_view(out@) =~= actions_view(before).push(a@));
                },
                _ => {},
            }
            i = i + 1;
        }
        assert(content.take(i as int) =~= content);
        out
    }
}

} // verus!
