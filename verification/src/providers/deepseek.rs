//! The DeepSeek provider: OpenAI-compatible chat completions.
//!
//! The library holds the provider's settings, builds the request body from a
//! completion request, and turns the reply into the unified message model. The
//! HTTP exchange and the JSON text on the wire are the caller's.

use vstd::prelude::*;

use crate::error::ProviderError;
use crate::json::{json_parse, json_text, json_to_string, parse_json, Json, JsonValue};
use crate::message::{message_text, BlockModel, ContentBlock, Message, MessageModel, Role};
use crate::provider::{CompletionRequest, CompletionResponse, Temperature, TokenUsage};
use crate::text::{chars_of, decimal_text, push_decimal, string_of_chars, trim, trim_spec};
use crate::tool::ToolSchema;

verus! {

broadcast use vstd::string::group_string_axioms;

/// The OpenAI-compatible API base.
pub const DEFAULT_API_BASE: &'static str = "https://api.deepseek.com";

/// The model used unless another is configured.
pub const DEFAULT_MODEL: &'static str = "deepseek-v4-flash";

/// The DeepSeek provider's settings.
#[derive(Debug)]
pub struct DeepSeekProvider {
    api_key: String,
    base_url: String,
    model: String,
    /// Thinking mode; off by default (faster, cheaper, no `reasoning_content`).
    thinking: bool,
}

/// Model of a [`DeepSeekProvider`].
pub struct DeepSeekModel {
    pub api_key: Seq<char>,
    pub base_url: Seq<char>,
    pub model: Seq<char>,
    pub thinking: bool,
}

impl View for DeepSeekProvider {
    type V = DeepSeekModel;

    closed spec fn view(&self) -> DeepSeekModel {
        DeepSeekModel {
            api_key: self.api_key@,
            base_url: self.base_url@,
            model: self.model@,
            thinking: self.thinking,
        }
    }
}

/// `text` without trailing `/` characters.
pub open spec fn trim_trailing_slashes(s: Seq<char>) -> Seq<char>
    decreases s.len(),
{
    if s.len() > 0 && s.last() == '/' {
        trim_trailing_slashes(s.drop_last())
    } else {
        s
    }
}

/// `s` without a final `/v1`, if it has one.
pub open spec fn strip_v1(s: Seq<char>) -> Seq<char> {
    if s.len() >= 3 && s.subrange(s.len() - 3, s.len() as int) == seq!['/', 'v', '1'] {
        s.subrange(0, s.len() - 3)
    } else {
        s
    }
}

/// The chat-completions URL for a base URL that may end with `/` or `/v1`.
pub open spec fn chat_url_text(base: Seq<char>) -> Seq<char> {
    strip_v1(trim_trailing_slashes(base)) + "/v1/chat/completions"@
}

/// Whether two characters are equal once ASCII upper case is folded to lower case,
/// for a lower-case `l`.
pub open spec fn folds_to(c: char, l: char) -> bool {
    c == l || ('A' <= c <= 'Z' && (c as u32) + 32 == (l as u32))
}

/// Whether `t` is the lower-case word `w`, ignoring ASCII case.
pub open spec fn is_word(t: Seq<char>, w: Seq<char>) -> bool {
    t.len() == w.len() && forall|i: int| 0 <= i < t.len() ==> folds_to(#[trigger] t[i], w[i])
}

/// Whether a setting turns thinking on: `1`, `true`, `enabled` or `on`, trimmed,
/// in any ASCII case.
pub open spec fn thinking_on(s: Seq<char>) -> bool {
    let t = trim_spec(s);
    is_word(t, "1"@) || is_word(t, "true"@) || is_word(t, "enabled"@) || is_word(t, "on"@)
}

fn is_word_exec(t: &Vec<char>, w: &str) -> (r: bool)
    ensures
        r == is_word(t@, w@),
{
    let wc = chars_of(w);
    if t.len() != wc.len() {
        return false;
    }
    let mut i: usize = 0;
    while i < t.len()
        invariant
            i <= t@.len(),
            t@.len() == wc@.len(),
            wc@ == w@,
            forall|j: int| 0 <= j < i ==> folds_to(#[trigger] t@[j], w@[j]),
        decreases t@.len() - i,
    {
        let c = t[i];
        let l = wc[i];
        let ok = c == l || ('A' <= c && c <= 'Z' && (c as u32) + 32 == (l as u32));
        if !ok {
            return false;
        }
        i = i + 1;
    }
    true
}

/// Whether a `DEEPSEEK_THINKING` value turns thinking on.
pub fn parse_thinking_flag(value: &str) -> (r: bool)
    ensures
        r == thinking_on(value@),
{
    let t = chars_of(trim(value).as_str());
    is_word_exec(&t, "1") || is_word_exec(&t, "true") || is_word_exec(&t, "enabled")
        || is_word_exec(&t, "on")
}

/// A trailing `/` on the base URL does not change the chat-completions URL.
pub proof fn lemma_chat_url_ignores_trailing_slash(base: Seq<char>)
    ensures
        chat_url_text(base.push('/')) == chat_url_text(base),
{
    assert(base.push('/').drop_last() =~= base);
}

/// A final `/v1` on the base URL does not change the chat-completions URL, for a
/// base that does not already end with `/` or `/v1`.
pub proof fn lemma_chat_url_ignores_v1(base: Seq<char>)
    requires
        !(base.len() > 0 && base.last() == '/'),
        strip_v1(base) == base,
    ensures
        chat_url_text(base + seq!['/', 'v', '1']) == chat_url_text(base),
{
    let b = base + seq!['/', 'v', '1'];
    assert(trim_trailing_slashes(base) == base);
    assert(b.last() == '1');
    assert(trim_trailing_slashes(b) == b);
    assert(b.subrange(b.len() - 3, b.len() as int) =~= seq!['/', 'v', '1']);
    assert(b.subrange(0, b.len() - 3) =~= base);
}

impl DeepSeekProvider {
    /// A provider with the given key, the default base URL and model, thinking off.
    pub fn new(api_key: String) -> (r: DeepSeekProvider)
        ensures
            r@.api_key == api_key@,
            r@.base_url == DEFAULT_API_BASE@,
            r@.model == DEFAULT_MODEL@,
            !r@.thinking,
    {
        DeepSeekProvider {
            api_key,
            base_url: String::from_str(DEFAULT_API_BASE),
            model: String::from_str(DEFAULT_MODEL),
            thinking: false,
        }
    }

    /// A provider from the values of `DEEPSEEK_API_KEY`, `DEEPSEEK_API_BASE`,
    /// `DEEPSEEK_MODEL` and `DEEPSEEK_THINKING` (`None` for an unset variable).
    /// The key is required; the others default.
    pub fn from_settings(
        api_key: Option<String>,
        base_url: Option<String>,
        model: Option<String>,
        thinking: Option<String>,
    ) -> (r: Result<DeepSeekProvider, ProviderError>)
        ensures
            match r {
                Ok(p) => {
                    &&& api_key matches Some(k) && p@.api_key == k@
                    &&& p@.base_url == (match base_url {
                        Some(b) => b@,
                        None => DEFAULT_API_BASE@,
                    })
                    &&& p@.model == (match model {
                        Some(m) => m@,
                        None => DEFAULT_MODEL@,
                    })
                    &&& p@.thinking == (match thinking {
                        Some(t) => thinking_on(t@),
                        None => false,
                    })
                },
                Err(e) => api_key is None && (e matches ProviderError::Auth(m) && m@
                    == "DEEPSEEK_API_KEY not set"@),
            },
    {
        let api_key = match api_key {
            Some(k) => k,
            None => {
                return Err(ProviderError::Auth(String::from_str("DEEPSEEK_API_KEY not set")));
            },
        };
        let base_url = match base_url {
            Some(b) => b,
            None => String::from_str(DEFAULT_API_BASE),
        };
        let model = match model {
            Some(m) => m,
            None => String::from_str(DEFAULT_MODEL),
        };
        let thinking = match thinking {
            Some(t) => parse_thinking_flag(t.as_str()),
            None => false,
        };
        Ok(DeepSeekProvider { api_key, base_url, model, thinking })
    }

    /// The API key, sent as a bearer token.
    pub fn api_key(&self) -> (r: &str)
        ensures
            r@ == self@.api_key,
    {
        self.api_key.as_str()
    }

    /// The configured base URL.
    pub fn base_url(&self) -> (r: &str)
        ensures
            r@ == self@.base_url,
    {
        self.base_url.as_str()
    }

    /// The configured model.
    pub fn model(&self) -> (r: &str)
        ensures
            r@ == self@.model,
    {
        self.model.as_str()
    }

    /// Whether thinking mode is on.
    pub fn thinking(&self) -> (r: bool)
        ensures
            r == self@.thinking,
    {
        self.thinking
    }

    /// The chat-completions URL: the base URL, without trailing `/` and without a
    /// final `/v1`, followed by `/v1/chat/completions`.
    pub fn chat_url(&self) -> (r: String)
        ensures
            r@ == chat_url_text(self@.base_url),
    {
        let chars = chars_of(self.base_url.as_str());
        let mut end: usize = chars.len();
        assert(chars@.take(end as int) =~= chars@);
        while end > 0 && chars[end - 1] == '/'
            invariant
                end <= chars@.len(),
                chars@ == self@.base_url,
                trim_trailing_slashes(chars@) == trim_trailing_slashes(chars@.take(end as int)),
            decreases end,
        {
            assert(chars@.take(end as int).drop_last() =~= chars@.take(end - 1));
            end = end - 1;
        }
        let ghost t = chars@.take(end as int);
        assert(trim_trailing_slashes(t) == t);
        if end >= 3 && chars[end - 3] == '/' && chars[end - 2] == 'v' && chars[end - 1] == '1' {
            assert(t.subrange(t.len() - 3, t.len() as int) =~= seq!['/', 'v', '1']);
            assert(t.subrange(0, t.len() - 3) =~= chars@.take(end - 3));
            end = end - 3;
        } else {
            assert(end >= 3 ==> t.subrange(t.len() - 3, t.len() as int)[0] == chars@[end - 3]);
            assert(end >= 3 ==> t.subrange(t.len() - 3, t.len() as int)[1] == chars@[end - 2]);
            assert(end >= 3 ==> t.subrange(t.len() - 3, t.len() as int)[2] == chars@[end - 1]);
        }
        let mut url = string_of_chars(chars.split_at(end).0);
        url.append("/v1/chat/completions");
        url
    }
}

/// A message in the API's format.
#[derive(Debug)]
pub struct ApiMessage {
    pub role: String,
    pub content: Option<String>,
    pub tool_calls: Option<Vec<ApiToolCall>>,
    pub tool_call_id: Option<String>,
}

/// A tool call in the API's format; the arguments are JSON text.
#[derive(Debug)]
pub struct ApiToolCall {
    pub id: String,
    pub kind: String,
    pub function: ApiFunctionCall,
}

/// The function part of an [`ApiToolCall`].
#[derive(Debug)]
pub struct ApiFunctionCall {
    pub name: String,
    pub arguments: String,
}

/// A tool declaration in the API's format.
#[derive(Debug)]
pub struct ApiTool {
    pub kind: String,
    pub function: ApiToolFunction,
}

/// The function part of an [`ApiTool`].
#[derive(Debug)]
pub struct ApiToolFunction {
    pub name: String,
    pub description: String,
    pub parameters: JsonValue,
}

/// The thinking switch: `{"type": "enabled" | "disabled"}`.
#[derive(Debug)]
pub struct ApiThinking {
    pub kind: String,
}

/// The body of a chat-completions request.
#[derive(Debug)]
pub struct ApiChatRequest {
    pub model: String,
    pub messages: Vec<ApiMessage>,
    pub max_tokens: u32,
    pub temperature: Option<Temperature>,
    pub tools: Option<Vec<ApiTool>>,
    pub thinking: Option<ApiThinking>,
    pub reasoning_effort: Option<String>,
}

/// Model of an [`ApiToolCall`].
pub struct ApiToolCallModel {
    pub id: Seq<char>,
    pub kind: Seq<char>,
    pub name: Seq<char>,
    pub arguments: Seq<char>,
}

/// Model of an [`ApiMessage`].
pub struct ApiMessageModel {
    pub role: Seq<char>,
    pub content: Option<Seq<char>>,
    pub tool_calls: Option<Seq<ApiToolCallModel>>,
    pub tool_call_id: Option<Seq<char>>,
}

/// Model of an [`ApiTool`].
pub struct ApiToolModel {
    pub kind: Seq<char>,
    pub name: Seq<char>,
    pub description: Seq<char>,
    pub parameters: Json,
}

impl View for ApiToolCall {
    type V = ApiToolCallModel;

    open spec fn view(&self) -> ApiToolCallModel {
        ApiToolCallModel {
            id: self.id@,
            kind: self.kind@,
            name: self.function.name@,
            arguments: self.function.arguments@,
        }
    }
}

/// The view of an optional string.
pub open spec fn opt_view(o: Option<String>) -> Option<Seq<char>> {
    match o {
        Some(s) => Some(s@),
        None => None,
    }
}

impl View for ApiMessage {
    type V = ApiMessageModel;

    open spec fn view(&self) -> ApiMessageModel {
        ApiMessageModel {
            role: self.role@,
            content: opt_view(self.content),
            tool_calls: match self.tool_calls {
                Some(calls) => Some(calls@.map_values(|c: ApiToolCall| c@)),
                None => None,
            },
            tool_call_id: opt_view(self.tool_call_id),
        }
    }
}

impl View for ApiTool {
    type V = ApiToolModel;

    open spec fn view(&self) -> ApiToolModel {
        ApiToolModel {
            kind: self.kind@,
            name: self.function.name@,
            description: self.function.description@,
            parameters: self.function.parameters@,
        }
    }
}

/// The models of API messages.
pub open spec fn api_messages_view(v: Seq<ApiMessage>) -> Seq<ApiMessageModel> {
    v.map_values(|m: ApiMessage| m@)
}

/// The API's name of a role.
pub open spec fn role_name(role: Role) -> Seq<char> {
    match role {
        Role::System => "system"@,
        Role::User => "user"@,
        Role::Assistant => "assistant"@,
        Role::Tool => "tool"@,
    }
}

/// How a role is printed by `Debug`.
pub open spec fn role_debug(role: Role) -> Seq<char> {
    match role {
        Role::System => "System"@,
        Role::User => "User"@,
        Role::Assistant => "Assistant"@,
        Role::Tool => "Tool"@,
    }
}

/// The API's name of a role.
pub fn role_to_api(role: Role) -> (r: String)
    ensures
        r@ == role_name(role),
{
    match role {
        Role::System => String::from_str("system"),
        Role::User => String::from_str("user"),
        Role::Assistant => String::from_str("assistant"),
        Role::Tool => String::from_str("tool"),
    }
}

fn role_debug_text(role: Role) -> (r: String)
    ensures
        r@ == role_debug(role),
{
    match role {
        Role::System => String::from_str("System"),
        Role::User => String::from_str("User"),
        Role::Assistant => String::from_str("Assistant"),
        Role::Tool => String::from_str("Tool"),
    }
}

/// The API tool calls of an assistant message's tool-call blocks, in order; the
/// arguments are their JSON text.
pub open spec fn tool_calls_of(blocks: Seq<BlockModel>) -> Seq<ApiToolCallModel>
    decreases blocks.len(),
{
    if blocks.len() == 0 {
        Seq::empty()
    } else {
        let before = tool_calls_of(blocks.drop_last());
        match blocks.last() {
            BlockModel::ToolCall { id, name, args } => before.push(
                ApiToolCallModel { id, kind: "function"@, name, arguments: json_text(args) },
            ),
            _ => before,
        }
    }
}

/// A message in the API's format, or the message of the error refusing it:
/// system and user messages need text; a tool message carries its first block,
/// which must be a tool result.
pub open spec fn encoded(m: MessageModel) -> Result<ApiMessageModel, Seq<char>> {
    match m.role {
        Role::System | Role::User => {
            let text = message_text(m);
            if text.len() == 0 {
                Err("empty text for "@ + role_debug(m.role) + " message"@)
            } else {
                Ok(
                    ApiMessageModel {
                        role: role_name(m.role),
                        content: Some(text),
                        tool_calls: None,
                        tool_call_id: None,
                    },
                )
            }
        },
        Role::Assistant => {
            let text = message_text(m);
            let calls = tool_calls_of(m.content);
            Ok(
                ApiMessageModel {
                    role: "assistant"@,
                    content: if text.len() == 0 {
                        None
                    } else {
                        Some(text)
                    },
                    tool_calls: if calls.len() == 0 {
                        None
                    } else {
                        Some(calls)
                    },
                    tool_call_id: None,
                },
            )
        },
        Role::Tool => {
            if m.content.len() == 0 {
                Err("tool message has no content"@)
            } else {
                match m.content[0] {
                    BlockModel::ToolResult { id, content, .. } => Ok(
                        ApiMessageModel {
                            role: "tool"@,
                            content: Some(content),
                            tool_calls: None,
                            tool_call_id: Some(id),
                        },
                    ),
                    _ => Err("tool message must contain ToolResult"@),
                }
            }
        },
    }
}

/// Whether `pos` lists, in increasing order, exactly the positions of the
/// tool-call blocks among `blocks`.
pub open spec fn tool_call_positions(blocks: Seq<BlockModel>, pos: Seq<int>) -> bool {
    &&& forall|i: int|
        0 <= i < pos.len() ==> 0 <= #[trigger] pos[i] < blocks.len() && blocks[pos[i]] is ToolCall
    &&& forall|i: int, j: int| 0 <= i < j < pos.len() ==> #[trigger] pos[i] < #[trigger] pos[j]
    &&& forall|k: int|
        0 <= k < blocks.len() && (#[trigger] blocks[k]) is ToolCall ==> exists|i: int|
            0 <= i < pos.len() && #[trigger] pos[i] == k
}

/// Whether `c` is the API tool call for the tool-call block `b`: its id and name,
/// of kind `function`, with the arguments as JSON text.
pub open spec fn api_call_for(b: BlockModel, c: ApiToolCallModel) -> bool {
    b matches BlockModel::ToolCall { id, name, args } && c == (ApiToolCallModel {
        id,
        kind: "function"@,
        name,
        arguments: json_text(args),
    })
}

/// The positions of the tool-call blocks, and what they give.
proof fn tool_call_positions_of(blocks: Seq<BlockModel>) -> (pos: Seq<int>)
    ensures
        tool_call_positions(blocks, pos),
        pos.len() == tool_calls_of(blocks).len(),
        forall|i: int|
            0 <= i < pos.len() ==> api_call_for(blocks[#[trigger] pos[i]], tool_calls_of(blocks)[i]),
    decreases blocks.len(),
{
    if blocks.len() == 0 {
        Seq::empty()
    } else {
        let d = blocks.drop_last();
        let p = tool_call_positions_of(d);
        let n = blocks.len() - 1;
        assert forall|k: int| 0 <= k < n implies #[trigger] blocks[k] == d[k] by {}
        match blocks.last() {
            BlockModel::ToolCall { .. } => {
                let q = p.push(n);
                assert forall|i: int| 0 <= i < q.len() implies api_call_for(
                    blocks[#[trigger] q[i]],
                    tool_calls_of(blocks)[i],
                ) by {
                    if i < p.len() {
                        assert(q[i] == p[i]);
                        assert(blocks[p[i]] == d[p[i]]);
                    }
                }
                assert forall|k: int| 0 <= k < blocks.len() && (#[trigger] blocks[k]) is ToolCall implies exists|i: int|
                    0 <= i < q.len() && #[trigger] q[i] == k by {
                    if k < n {
                        assert(d[k] is ToolCall);
                        let i = choose|i: int| 0 <= i < p.len() && #[trigger] p[i] == k;
                        assert(q[i] == k);
                    } else {
                        assert(q[p.len() as int] == k);
                    }
                }
                assert forall|i: int| 0 <= i < q.len() implies 0 <= #[trigger] q[i] < blocks.len()
                    && blocks[q[i]] is ToolCall by {
                    if i < p.len() {
                        assert(q[i] == p[i]);
                        assert(blocks[p[i]] == d[p[i]]);
                    }
                }
                assert forall|i: int, j: int| 0 <= i < j < q.len() implies #[trigger] q[i] < #[trigger] q[j] by {
                    if j < p.len() {
                        assert(q[i] == p[i] && q[j] == p[j]);
                    } else {
                        assert(q[i] == p[i]);
                    }
                }
                q
            },
            _ => {
                assert forall|i: int| 0 <= i < p.len() implies api_call_for(
                    blocks[#[trigger] p[i]],
                    tool_calls_of(blocks)[i],
                ) by {
                    assert(blocks[p[i]] == d[p[i]]);
                }
                assert forall|k: int| 0 <= k < blocks.len() && (#[trigger] blocks[k]) is ToolCall implies exists|i: int|
                    0 <= i < p.len() && #[trigger] p[i] == k by {
                    assert(k < n);
                    assert(d[k] is ToolCall);
                }
                assert forall|i: int| 0 <= i < p.len() implies 0 <= #[trigger] p[i] < blocks.len()
                    && blocks[p[i]] is ToolCall by {
                    assert(blocks[p[i]] == d[p[i]]);
                }
                p
            },
        }
    }
}

/// Encoding an assistant message keeps every tool call: the API message carries
/// one tool call per tool-call block, in the blocks' order, each with that
/// block's id and name, of kind `function`, and its arguments as JSON text; it
/// carries none (`None`) when the message has no tool-call block.
pub proof fn lemma_encode_keeps_every_tool_call(m: MessageModel)
    requires
        m.role == Role::Assistant,
    ensures
        encoded(m) is Ok,
        encoded(m) matches Ok(a) && {
            let cs = match a.tool_calls {
                Some(c) => c,
                None => Seq::empty(),
            };
            &&& a.tool_calls is Some ==> cs.len() > 0
            &&& exists|pos: Seq<int>|
                {
                    &&& #[trigger] tool_call_positions(m.content, pos)
                    &&& pos.len() == cs.len()
                    &&& forall|i: int|
                        0 <= i < cs.len() ==> api_call_for(m.content[#[trigger] pos[i]], cs[i])
                }
        },
{
    let pos = tool_call_positions_of(m.content);
    let a = encoded(m)->Ok_0;
    let cs = match a.tool_calls {
        Some(c) => c,
        None => Seq::empty(),
    };
    assert(cs == tool_calls_of(m.content));
    assert(tool_call_positions(m.content, pos));
}

/// Whether `e` is the invalid-response error with message `m`.
pub open spec fn is_invalid_response(e: ProviderError, m: Seq<char>) -> bool {
    e matches ProviderError::InvalidResponse(x) && x@ == m
}

/// Encoding keeps the history as it is: when it succeeds there is one API message
/// per message, in order, each the encoding of its message; so no tool call is
/// parted from its result.
pub proof fn lemma_encoded_all_pointwise(ms: Seq<MessageModel>)
    ensures
        encoded_all(ms) matches Ok(api) ==> {
            &&& api.len() == ms.len()
            &&& forall|i: int|
                0 <= i < ms.len() ==> encoded(#[trigger] ms[i]) == Ok::<ApiMessageModel, Seq<char>>(
                    api[i],
                )
        },
    decreases ms.len(),
{
    if ms.len() > 0 {
        lemma_encoded_all_pointwise(ms.drop_last());
        if let Ok(api) = encoded_all(ms) {
            let before = encoded_all(ms.drop_last())->Ok_0;
            assert forall|i: int| 0 <= i < ms.len() implies encoded(#[trigger] ms[i]) == Ok::<
                ApiMessageModel,
                Seq<char>,
            >(api[i]) by {
                if i < ms.len() - 1 {
                    assert(ms[i] == ms.drop_last()[i]);
                    assert(api[i] == before[i]);
                }
            }
        }
    }
}

/// One message in the API's format.
pub fn encode_message(message: &Message) -> (r: Result<ApiMessage, ProviderError>)
    ensures
        match r {
            Ok(a) => encoded(message@) == Ok::<ApiMessageModel, Seq<char>>(a@),
            Err(e) => encoded(message@) matches Err(m) && is_invalid_response(e, m),
        },
{
    match message.role {
        Role::System | Role::User => {
            let text = message.text();
            if text.as_str().is_empty() {
                let mut m = String::from_str("empty text for ");
                let d = role_debug_text(message.role);
                m.append(d.as_str());
                m.append(" message");
                return Err(ProviderError::InvalidResponse(m));
            }
            let a = ApiMessage {
                role: role_to_api(message.role),
                content: Some(text),
                tool_calls: None,
                tool_call_id: None,
            };
            Ok(a)
        },
        Role::Assistant => {
            let text = message.text();
            let ghost content = message@.content;
            let mut calls: Vec<ApiToolCall> = Vec::new();
            let mut i: usize = 0;
            assert(content.take(0) =~= Seq::<BlockModel>::empty());
            assert(calls@.map_values(|c: ApiToolCall| c@) =~= tool_calls_of(content.take(0)));
            while i < message.content.len()
                invariant
                    i <= message.content@.len(),
                    content == message@.content,
                    content.len() == message.content@.len(),
                    calls@.map_values(|c: ApiToolCall| c@) == tool_calls_of(content.take(i as int)),
                decreases message.content@.len() - i,
            {
                assert(content.take(i + 1).drop_last() =~= content.take(i as int));
                assert(content.take(i + 1).last() == message.content@[i as int]@);
                match &message.content[i] {
                    ContentBlock::ToolCall { id, name, args } => {
                        let call = ApiToolCall {
                            id: id.clone(),
                            kind: String::from_str("function"),
                            function: ApiFunctionCall {
                                name: name.clone(),
                                arguments: json_to_string(args),
                            },
                        };
                        let ghost before = calls@;
                        calls.push(call);
                        assert(calls@.map_values(|c: ApiToolCall| c@) =~= before.map_values(
                            |c: ApiToolCall| c@,
                        ).push(call@));
                    },
                    _ => {},
                }
                i = i + 1;
            }
            assert(content.take(i as int) =~= content);
            let content_opt = if text.as_str().is_empty() {
                None
            } else {
                Some(text)
            };
            let calls_opt = if calls.len() == 0 {
                None
            } else {
                Some(calls)
            };
            Ok(
                ApiMessage {
                    role: String::from_str("assistant"),
                    content: content_opt,
                    tool_calls: calls_opt,
                    tool_call_id: None,
                },
            )
        },
        Role::Tool => {
            if message.content.len() == 0 {
                return Err(
                    ProviderError::InvalidResponse(String::from_str("tool message has no content")),
                );
            }
            match &message.content[0] {
                ContentBlock::ToolResult { id, content, .. } => Ok(
                    ApiMessage {
                        role: String::from_str("tool"),
                        content: Some(content.clone()),
                        tool_calls: None,
                        tool_call_id: Some(id.clone()),
                    },
                ),
                _ => Err(
                    ProviderError::InvalidResponse(
                        String::from_str("tool message must contain ToolResult"),
                    ),
                ),
            }
        },
    }
}

/// The history in the API's format, or the first message that cannot be encoded.
pub open spec fn encoded_all(ms: Seq<MessageModel>) -> Result<Seq<ApiMessageModel>, Seq<char>>
    decreases ms.len(),
{
    if ms.len() == 0 {
        Ok(Seq::empty())
    } else {
        match encoded_all(ms.drop_last()) {
            Err(m) => Err(m),
            Ok(before) => match encoded(ms.last()) {
                Err(m) => Err(m),
                Ok(a) => Ok(before.push(a)),
            },
        }
    }
}

proof fn lemma_encoded_all_err(ms: Seq<MessageModel>, i: int, j: int)
    requires
        0 <= i <= j <= ms.len(),
        encoded_all(ms.take(i)) is Err,
    ensures
        encoded_all(ms.take(j)) == encoded_all(ms.take(i)),
    decreases j - i,
{
    if i < j {
        lemma_encoded_all_err(ms, i, j - 1);
        assert(ms.take(j).drop_last() =~= ms.take(j - 1));
    }
}

/// The whole history in the API's format; no message is dropped or merged.
pub fn encode_messages(messages: &Vec<Message>) -> (r: Result<Vec<ApiMessage>, ProviderError>)
    ensures
        match r {
            Ok(v) => encoded_all(crate::message::messages_view(messages@)) == Ok::<
                Seq<ApiMessageModel>,
                Seq<char>,
            >(api_messages_view(v@)),
            Err(e) => encoded_all(crate::message::messages_view(messages@)) matches Err(m)
                && is_invalid_response(e, m),
        },
{
    let ghost ms = crate::message::messages_view(messages@);
    let mut out: Vec<ApiMessage> = Vec::new();
    let mut i: usize = 0;
    assert(ms.take(0) =~= Seq::<MessageModel>::empty());
    assert(api_messages_view(out@) =~= Seq::<ApiMessageModel>::empty());
    while i < messages.len()
        invariant
            i <= messages@.len(),
            ms == crate::message::messages_view(messages@),
            ms.len() == messages@.len(),
            encoded_all(ms.take(i as int)) == Ok::<Seq<ApiMessageModel>, Seq<char>>(
                api_messages_view(out@),
            ),
        decreases messages@.len() - i,
    {
        assert(ms.take(i + 1).drop_last() =~= ms.take(i as int));
        assert(ms.take(i + 1).last() == messages@[i as int]@);
        match encode_message(&messages[i]) {
            Err(e) => {
                proof {
                    lemma_encoded_all_err(ms, i + 1, ms.len() as int);
                    assert(ms.take(ms.len() as int) =~= ms);
                }
                return Err(e);
            },
            Ok(a) => {
                let ghost before = out@;
                out.push(a);
                assert(api_messages_view(out@) =~= api_messages_view(before).push(a@));
            },
        }
        i = i + 1;
    }
    assert(ms.take(i as int) =~= ms);
    Ok(out)
}

/// The tool declarations in the API's format; `None` when there are none.
pub fn encode_tools(tools: &Vec<ToolSchema>) -> (r: Option<Vec<ApiTool>>)
    ensures
        match r {
            None => tools@.len() == 0,
            Some(v) => {
                &&& tools@.len() > 0
                &&& v@.len() == tools@.len()
                &&& forall|i: int|
                    0 <= i < v@.len() ==> (#[trigger] v@[i])@ == (ApiToolModel {
                        kind: "function"@,
                        name: tools@[i]@.name,
                        description: tools@[i]@.description,
                        parameters: tools@[i]@.parameters,
                    })
            },
        },
{
    if tools.len() == 0 {
        return None;
    }
    let mut out: Vec<ApiTool> = Vec::new();
    let mut i: usize = 0;
    while i < tools.len()
        invariant
            i <= tools@.len(),
            out@.len() == i,
            forall|k: int|
                0 <= k < i ==> (#[trigger] out@[k])@ == (ApiToolModel {
                    kind: "function"@,
                    name: tools@[k]@.name,
                    description: tools@[k]@.description,
                    parameters: tools@[k]@.parameters,
                }),
        decreases tools@.len() - i,
    {
        let t = &tools[i];
        out.push(
            ApiTool {
                kind: String::from_str("function"),
                function: ApiToolFunction {
                    name: t.name.clone(),
                    description: t.description.clone(),
                    parameters: t.parameters.duplicate(),
                },
            },
        );
        i = i + 1;
    }
    Some(out)
}

/// The arguments of a tool call: its JSON text parsed, or the text itself as a
/// JSON string when it does not parse.
pub open spec fn call_args(arguments: Seq<char>) -> Json {
    match json_parse(arguments) {
        Some(v) => v,
        None => Json::Str(arguments),
    }
}

/// The blocks of a decoded assistant message: its text unless empty, then one
/// tool call per API tool call, in order.
pub open spec fn decoded_blocks(api: ApiMessageModel) -> Seq<BlockModel> {
    let text = match api.content {
        Some(t) => if t.len() > 0 {
            seq![BlockModel::Text(t)]
        } else {
            Seq::empty()
        },
        None => Seq::empty(),
    };
    let calls = match api.tool_calls {
        Some(cs) => cs.map_values(
            |c: ApiToolCallModel|
                BlockModel::ToolCall { id: c.id, name: c.name, args: call_args(c.arguments) },
        ),
        None => Seq::empty(),
    };
    text + calls
}

/// The unified message for an API reply, or the message of the error refusing
/// it: the role must be `assistant`, and it must hold text or tool calls.
pub open spec fn decoded(api: ApiMessageModel) -> Result<MessageModel, Seq<char>> {
    if api.role != "assistant"@ {
        Err("expected assistant message, got "@ + api.role)
    } else if decoded_blocks(api).len() == 0 {
        Err("assistant message has no content or tool_calls"@)
    } else {
        Ok(MessageModel { role: Role::Assistant, content: decoded_blocks(api) })
    }
}

/// Decoding a reply keeps every tool call: a reply is accepted exactly when its
/// role is `assistant` and it holds non-empty text or a tool call; the message
/// then holds the text first (when non-empty), followed by one tool-call block
/// per API tool call, in order, each with that call's id and name and its
/// arguments parsed as JSON (kept as a JSON string when they do not parse).
pub proof fn lemma_decode_keeps_every_tool_call(api: ApiMessageModel)
    ensures
        ({
            let cs = match api.tool_calls {
                Some(c) => c,
                None => Seq::<ApiToolCallModel>::empty(),
            };
            let has_text = api.content matches Some(t) && t.len() > 0;
            &&& decoded(api) is Ok <==> (api.role == "assistant"@ && (has_text || cs.len() > 0))
            &&& decoded(api) matches Ok(m) ==> {
                let lead = if has_text { 1int } else { 0int };
                &&& m.role == Role::Assistant
                &&& m.content.len() == lead + cs.len()
                &&& has_text ==> m.content[0] == BlockModel::Text(api.content->0)
                &&& forall|k: int|
                    0 <= k < cs.len() ==> #[trigger] m.content[lead + k] == BlockModel::ToolCall {
                        id: cs[k].id,
                        name: cs[k].name,
                        args: match json_parse(cs[k].arguments) {
                            Some(v) => v,
                            None => Json::Str(cs[k].arguments),
                        },
                    }
            }
        }),
{
    let cs = match api.tool_calls {
        Some(c) => c,
        None => Seq::<ApiToolCallModel>::empty(),
    };
    let blocks = decoded_blocks(api);
    let has_text = api.content matches Some(t) && t.len() > 0;
    let lead = if has_text { 1int } else { 0int };
    assert(blocks.len() == lead + cs.len());
    assert forall|k: int| 0 <= k < cs.len() implies #[trigger] blocks[lead + k] == BlockModel::ToolCall {
        id: cs[k].id,
        name: cs[k].name,
        args: match json_parse(cs[k].arguments) {
            Some(v) => v,
            None => Json::Str(cs[k].arguments),
        },
    } by {}
}

/// The unified message for the assistant message of a reply. Reasoning content
/// is not part of [`ApiMessage`], so it never reaches the history.
pub fn decode_assistant_message(api: ApiMessage) -> (r: Result<Message, ProviderError>)
    ensures
        match r {
            Ok(m) => decoded(api@) == Ok::<MessageModel, Seq<char>>(m@),
            Err(e) => decoded(api@) matches Err(m) && is_invalid_response(e, m),
        },
{
    let ghost a = api@;
    let assistant = String::from_str("assistant");
    if !(api.role == assistant) {
        let mut m = String::from_str("expected assistant message, got ");
        m.append(api.role.as_str());
        return Err(ProviderError::InvalidResponse(m));
    }
    let mut blocks: Vec<ContentBlock> = Vec::new();
    match api.content {
        Some(text) => {
            if !text.as_str().is_empty() {
                blocks.push(ContentBlock::Text(text));
            }
        },
        None => {},
    }
    let ghost text_blocks = crate::message::blocks_view(blocks@);
    match api.tool_calls {
        Some(calls) => {
            let ghost cs = calls@.map_values(|c: ApiToolCall| c@);
            let mut i: usize = 0;
            while i < calls.len()
                invariant
                    i <= calls@.len(),
                    cs == calls@.map_values(|c: ApiToolCall| c@),
                    crate::message::blocks_view(blocks@) == text_blocks + cs.take(i as int).map_values(
                        |c: ApiToolCallModel|
                            BlockModel::ToolCall {
                                id: c.id,
                                name: c.name,
                                args: call_args(c.arguments),
                            },
                    ),
                decreases calls@.len() - i,
            {
                let call = &calls[i];
                let args = match parse_json(call.function.arguments.as_str()) {
                    Some(v) => v,
                    None => JsonValue::String(call.function.arguments.clone()),
                };
                let block = ContentBlock::ToolCall {
                    id: call.id.clone(),
                    name: call.function.name.clone(),
                    args,
                };
                let ghost before = blocks@;
                blocks.push(block);
                assert(cs.take(i + 1) =~= cs.take(i as int).push(cs[i as int]));
                assert(crate::message::blocks_view(blocks@) =~= crate::message::blocks_view(
                    before,
                ).push(block@));
                assert(crate::message::blocks_view(blocks@) =~= text_blocks + cs.take(
                    i + 1,
                ).map_values(
                    |c: ApiToolCallModel|
                        BlockModel::ToolCall {
                            id: c.id,
                            name: c.name,
                            args: call_args(c.arguments),
                        },
                ));
                i = i + 1;
            }
            assert(cs.take(i as int) =~= cs);
        },
        None => {
            assert(crate::message::blocks_view(blocks@) =~= text_blocks + Seq::<BlockModel>::empty());
        },
    }
    assert(crate::message::blocks_view(blocks@) =~= decoded_blocks(a));
    if blocks.len() == 0 {
        return Err(
            ProviderError::InvalidResponse(
                String::from_str("assistant message has no content or tool_calls"),
            ),
        );
    }
    Ok(Message::assistant(blocks))
}

/// Whether the first `max` bytes of `body` end at a character boundary (or the
/// body is no longer than that).
pub open spec fn cut_fits(body: Seq<char>, max: nat) -> bool {
    let b = vstd::utf8::encode_utf8(body);
    b.len() <= max || vstd::utf8::is_char_boundary(b, max as int)
}

/// The body as shown in an error: whole when it has at most `max` bytes, else
/// its first `max` bytes followed by `…`.
pub open spec fn truncated_text(body: Seq<char>, max: nat) -> Seq<char> {
    let b = vstd::utf8::encode_utf8(body);
    if b.len() <= max {
        body
    } else {
        vstd::utf8::decode_utf8(b.take(max as int)) + "…"@
    }
}

/// At most `max` bytes of the body, with `…` when it was longer. Cutting inside a
/// character is refused (the slice would panic).
pub fn truncate_body(body: &str, max: usize) -> (r: String)
    requires
        vstd::utf8::encode_utf8(body@).len() <= usize::MAX,
        cut_fits(body@, max as nat),
    ensures
        r@ == truncated_text(body@, max as nat),
{
    if body.len() <= max {
        return String::from_str(body);
    }
    let (head, _) = body.split_at(max);
    proof {
        vstd::utf8::encode_utf8_decode_utf8(head@);
    }
    let mut r = String::from_str(head);
    r.append("…");
    r
}

/// Statuses that are refused as authentication failures.
pub open spec fn is_auth_status(status: u16) -> bool {
    status == 401 || status == 403
}

/// The detail of an authentication or rate-limit error: the API's error message
/// when the body carries one, else the body cut at 256 bytes.
pub open spec fn error_detail(body: Seq<char>, api_message: Option<Seq<char>>) -> Seq<char> {
    match api_message {
        Some(m) => m,
        None => truncated_text(body, 256),
    }
}

/// Whether `e` is the error that an HTTP status and body give: 401 and 403 are
/// authentication failures, 429 is rate limiting, any other status outside
/// 200–299 a network error naming the status and the body cut at 512 bytes.
pub open spec fn status_error_is(
    status: u16,
    body: Seq<char>,
    api_message: Option<Seq<char>>,
    e: ProviderError,
) -> bool {
    if is_auth_status(status) {
        e matches ProviderError::Auth(m) && m@ == error_detail(body, api_message)
    } else if status == 429 {
        e matches ProviderError::RateLimit(m) && m@ == error_detail(body, api_message)
    } else {
        e matches ProviderError::Network(m) && m@ == "HTTP "@ + decimal_text(status as nat) + ": "@
            + truncated_text(body, 512)
    }
}

/// The error an HTTP reply carries, if any; `api_message` is the `error.message`
/// of the body when it has one.
pub fn status_error(status: u16, body: &str, api_message: Option<String>) -> (r: Option<
    ProviderError,
>)
    requires
        vstd::utf8::encode_utf8(body@).len() <= usize::MAX,
        (is_auth_status(status) || status == 429) && api_message is None ==> cut_fits(body@, 256),
        !(is_auth_status(status) || status == 429) && !(200 <= status < 300) ==> cut_fits(
            body@,
            512,
        ),
    ensures
        match r {
            None => 200 <= status < 300,
            Some(e) => !(200 <= status < 300) && status_error_is(
                status,
                body@,
                opt_view(api_message),
                e,
            ),
        },
{
    if status == 401 || status == 403 || status == 429 {
        let detail = match api_message {
            Some(m) => m,
            None => truncate_body(body, 256),
        };
        if status == 429 {
            return Some(ProviderError::RateLimit(detail));
        }
        return Some(ProviderError::Auth(detail));
    }
    if status < 200 || status >= 300 {
        let mut m = String::from_str("HTTP ");
        push_decimal(&mut m, status as u64);
        m.append(": ");
        let t = truncate_body(body, 512);
        m.append(t.as_str());
        return Some(ProviderError::Network(m));
    }
    None
}

/// The completion for the choices of a successful reply: the first choice's
/// message, decoded.
pub fn finish_response(choices: Vec<ApiMessage>, usage: Option<TokenUsage>) -> (r: Result<
    CompletionResponse,
    ProviderError,
>)
    ensures
        choices@.len() == 0 ==> (r matches Err(e) && is_invalid_response(e, "missing choices"@)),
        choices@.len() > 0 ==> match r {
            Ok(resp) => decoded(choices@[0]@) == Ok::<MessageModel, Seq<char>>(resp.message@)
                && resp.usage == usage,
            Err(e) => decoded(choices@[0]@) matches Err(m) && is_invalid_response(e, m),
        },
{
    if choices.len() == 0 {
        return Err(ProviderError::InvalidResponse(String::from_str("missing choices")));
    }
    let mut choices = choices;
    let first = choices.remove(0);
    match decode_assistant_message(first) {
        Ok(message) => Ok(CompletionResponse { message, usage }),
        Err(e) => Err(e),
    }
}

impl DeepSeekProvider {
    /// The request body for a completion request: the configured model, the
    /// history and tools in the API's format, the token limit and temperature,
    /// and the thinking switch (`reasoning_effort: high` when thinking).
    pub fn chat_body(&self, req: &CompletionRequest) -> (r: Result<ApiChatRequest, ProviderError>)
        ensures
            match r {
                Ok(b) => {
                    &&& encoded_all(req@.messages) == Ok::<Seq<ApiMessageModel>, Seq<char>>(
                        api_messages_view(b.messages@),
                    )
                    &&& b.model@ == self@.model
                    &&& b.max_tokens == req@.max_tokens
                    &&& b.temperature == req@.temperature
                    &&& (b.tools is None <==> req@.tools.len() == 0)
                    &&& (b.tools matches Some(ts) ==> ts@.len() == req@.tools.len() && forall|i: int|
                        0 <= i < ts@.len() ==> (#[trigger] ts@[i])@ == (ApiToolModel {
                            kind: "function"@,
                            name: req@.tools[i].name,
                            description: req@.tools[i].description,
                            parameters: req@.tools[i].parameters,
                        }))
                    &&& b.thinking matches Some(t) && t.kind@ == (if self@.thinking {
                        "enabled"@
                    } else {
                        "disabled"@
                    })
                    &&& opt_view(b.reasoning_effort) == (if self@.thinking {
                        Some("high"@)
                    } else {
                        None
                    })
                },
                Err(e) => encoded_all(req@.messages) matches Err(m) && is_invalid_response(e, m),
            },
    {
        let messages = match encode_messages(&req.messages) {
            Ok(m) => m,
            Err(e) => {
                return Err(e);
            },
        };
        let tools = encode_tools(&req.tools);
        let kind = if self.thinking {
            String::from_str("enabled")
        } else {
            String::from_str("disabled")
        };
        let reasoning_effort = if self.thinking {
            Some(String::from_str("high"))
        } else {
            None
        };
        Ok(
            ApiChatRequest {
                model: self.model.clone(),
                messages,
                max_tokens: req.max_tokens,
                temperature: req.temperature,
                tools,
                thinking: Some(ApiThinking { kind }),
                reasoning_effort,
            },
        )
    }
}

} // verus!
