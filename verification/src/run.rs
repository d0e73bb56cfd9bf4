//! The agent loop: call the provider, parse actions, run tools, repeat.

use vstd::prelude::*;

use crate::action::{actions_view, validation_error, Action, ActionBackend, ActionModel};
use crate::error::{tool_error_text, LoopError, StrataError, ToolError};
use crate::message::{message_text, BlockModel, ContentBlock, Message, MessageModel, Role};
use crate::error::ProviderError;
use crate::provider::{
    outcome_view, CompletionRequest, CompletionRequestModel, CompletionResponse,
    CompletionResponseModel, Provider, TokenUsage,
};
use crate::session::{last_assistant_text_of, opt_text, Session, SessionModel};
use crate::text::{decimal_text, push_decimal};
use crate::tool::{Tool, ToolRegistry};
use crate::trace::{TraceEvent, Tracer};

verus! {

/// Output token limit of each provider call.
pub const DEFAULT_MAX_TOKENS: u32 = 4096;

#[verifier::external_type_specification]
#[verifier::external_body]
pub struct ExInstant(std::time::Instant);

/// `std::time::Instant::now`. Nothing is claimed of the instant.
#[verifier::external_body]
fn start_clock() -> std::time::Instant {
    std::time::Instant::now()
}

/// `Instant::elapsed` in whole milliseconds. Nothing is claimed of the duration.
#[verifier::external_body]
fn elapsed_ms(start: &std::time::Instant) -> u64 {
    start.elapsed().as_millis() as u64
}

/// Whether `req` is the request of a turn over `history`: the whole history, for
/// each registered tool in registration order a schema it declares, the default
/// token limit, no temperature.
pub open spec fn turn_request<T: Tool>(
    req: CompletionRequestModel,
    history: Seq<MessageModel>,
    tools: &ToolRegistry<T>,
) -> bool {
    &&& req.messages == history
    &&& req.tools.len() == tools.names().len()
    &&& forall|i: int|
        0 <= i < req.tools.len() ==> tools.declared(tools.names()[i], #[trigger] req.tools[i])
    &&& req.max_tokens == DEFAULT_MAX_TOKENS
    &&& req.temperature is None
}

/// The request of a turn: the whole history, the schemas of all tools, the
/// default token limit, no temperature.
pub fn build_request<T: Tool>(session: &Session, tools: &ToolRegistry<T>) -> (r: CompletionRequest)
    ensures
        turn_request(r@, session@.history, tools),
{
    let messages = crate::message::duplicate_messages(&session.history);
    let schemas = tools.schemas();
    CompletionRequest { messages, tools: schemas, max_tokens: DEFAULT_MAX_TOKENS, temperature: None }
}

/// The id a tool result is filed under: the call's own id, or
/// `parse_error_{turn}_{index}` when the call has none.
pub open spec fn backfill_id_text(id: Seq<char>, turn: u32, index: nat) -> Seq<char> {
    if id.len() == 0 {
        "parse_error_"@ + decimal_text(turn as nat) + "_"@ + decimal_text(index)
    } else {
        id
    }
}

/// The tool name shown in trace events: `unknown` for an empty name.
pub open spec fn trace_name_text(name: Seq<char>) -> Seq<char> {
    if name.len() == 0 {
        "unknown"@
    } else {
        name
    }
}

fn backfill_id(action: &Action, turn: u32, index: usize) -> (r: String)
    ensures
        r@ == backfill_id_text(action.id@, turn, index as nat),
{
    if action.id.as_str().is_empty() {
        let mut s = String::from_str("parse_error_");
        push_decimal(&mut s, turn as u64);
        s.append("_");
        push_decimal(&mut s, index as u64);
        s
    } else {
        action.id.clone()
    }
}

fn trace_name(name: &str) -> (r: String)
    ensures
        r@ == trace_name_text(name@),
{
    if name.is_empty() {
        String::from_str("unknown")
    } else {
        String::from_str(name)
    }
}

/// A tool message holding one tool result.
pub open spec fn tool_result_message(id: Seq<char>, content: Seq<char>, is_error: bool) -> MessageModel {
    MessageModel {
        role: Role::Tool,
        content: seq![BlockModel::ToolResult { id, content, is_error }],
    }
}

/// The result of an action when it is settled without running a tool: a
/// refused action gives its parse error, an unregistered name gives an unknown-tool
/// error; `None` when the tool runs.
pub open spec fn settled_result(a: ActionModel, names: Seq<Seq<char>>) -> Option<(Seq<char>, bool)> {
    match validation_error(a) {
        Some(m) => Some(("invalid tool call: "@ + m, true)),
        None => if names.contains(a.name) {
            None
        } else {
            Some(("unknown tool: "@ + a.name, true))
        },
    }
}

/// The content and error flag of the tool result filed for what a tool returned.
pub open spec fn result_text(r: Result<String, ToolError>) -> (Seq<char>, bool) {
    match r {
        Ok(out) => (out@, false),
        Err(e) => (tool_error_text(e), true),
    }
}

/// Whether `res` is an outcome that the tool registered under the action's name
/// may give for the action's arguments.
pub open spec fn tool_gave<T: Tool>(
    tools: &ToolRegistry<T>,
    a: ActionModel,
    res: Result<String, ToolError>,
) -> bool {
    tools.lookup(a.name) matches Some(t) && t.may_return(a.args, res)
}

/// Whether `m` is the tool message that reports action `a`, number `index` of turn
/// `turn`: one tool result under the backfill id, with the settled content when
/// the action is settled without running a tool, and otherwise the content of an
/// outcome that the action's tool may give for its arguments.
pub open spec fn reports_action<T: Tool>(
    m: MessageModel,
    a: ActionModel,
    turn: u32,
    index: nat,
    tools: &ToolRegistry<T>,
) -> bool {
    &&& m.role == Role::Tool
    &&& m.content.len() == 1
    &&& m.content[0] matches BlockModel::ToolResult { id, content, is_error } && {
        &&& id == backfill_id_text(a.id, turn, index)
        &&& match settled_result(a, tools.names()) {
            Some((c, e)) => content == c && is_error == e,
            None => exists|res: Result<String, ToolError>|
                #[trigger] tool_gave(tools, a, res) && result_text(res) == (content, is_error),
        }
    }
}

/// The content and error flag of a tool result for what a tool returned.
pub fn tool_result_content(result: Result<String, ToolError>) -> (r: (String, bool))
    ensures
        (r.0@, r.1) == result_text(result),
{
    match result {
        Ok(out) => (out, false),
        Err(e) => (e.to_string(), true),
    }
}

fn backfill_tool_result<Tr: Tracer>(
    session: &mut Session,
    tracer: &Tr,
    turn: u32,
    id: &String,
    name: &String,
    content: String,
    is_error: bool,
)
    ensures
        final(session)@.history == old(session)@.history.push(
            tool_result_message(id@, content@, is_error),
        ),
        final(session)@.turn == old(session)@.turn,
{
    tracer.on_event(TraceEvent::ToolCall { turn, id: id.clone(), name: name.clone() });
    let ghost c = content@;
    let block = ContentBlock::ToolResult { id: id.clone(), content, is_error };
    let message = Message::tool(block);
    session.push(message);
    assert(final(session)@.history[old(session)@.history.len() as int] =~= tool_result_message(
        id@,
        c,
        is_error,
    ));
    assert(final(session)@.history =~= old(session)@.history.push(
        tool_result_message(id@, c, is_error),
    ));
    tracer.on_event(
        TraceEvent::ToolResult { turn, id: id.clone(), name: name.clone(), is_error },
    );
}

/// Runs the actions of one turn in order and files one tool message per action:
/// a refused action gets its parse error, an unregistered tool an unknown-tool
/// error, any other the tool's output or error. Nothing here stops the loop.
pub fn execute_actions<T: Tool, Tr: Tracer>(
    session: &mut Session,
    tools: &ToolRegistry<T>,
    tracer: &Tr,
    actions: Vec<Action>,
)
    ensures
        final(session)@.turn == old(session)@.turn,
        final(session)@.history.len() == old(session)@.history.len() + actions@.len(),
        final(session)@.history.take(old(session)@.history.len() as int) == old(session)@.history,
        forall|i: int|
            0 <= i < actions@.len() ==> reports_action(
                #[trigger] final(session)@.history[old(session)@.history.len() + i],
                actions@[i]@,
                old(session)@.turn,
                i as nat,
                tools,
            ),
{
    let turn = session.turn;
    let ghost h0 = session@.history;
    let mut index: usize = 0;
    assert(session@.history.take(h0.len() as int) =~= h0);
    while index < actions.len()
        invariant
            index <= actions@.len(),
            session@.turn == turn,
            turn == old(session)@.turn,
            h0 == old(session)@.history,
            session@.history.len() == h0.len() + index,
            session@.history.take(h0.len() as int) == h0,
            forall|i: int|
                0 <= i < index ==> reports_action(
                    #[trigger] session@.history[h0.len() + i],
                    actions@[i]@,
                    turn,
                    i as nat,
                    tools,
                ),
        decreases actions@.len() - index,
    {
        let action = &actions[index];
        let id = backfill_id(action, turn, index);
        let name = trace_name(action.name.as_str());
        let ghost before = session@.history;
        let ghost a = action@;
        match action.validate() {
            Err(parse_err) => {
                let content = parse_err.to_string();
                backfill_tool_result(session, tracer, turn, &id, &name, content, true);
            },
            Ok(()) => {
                let result = match tools.get(action.name.as_str()) {
                    Some(tool) => {
                        let args = action.args.duplicate();
                        let out = tool.execute(args);
                        assert(tool_gave(tools, a, out));
                        out
                    },
                    None => Err(ToolError::Unknown { name: action.name.clone() }),
                };
                let ghost res = result;
                let (content, is_error) = tool_result_content(result);
                backfill_tool_result(session, tracer, turn, &id, &name, content, is_error);
                proof {
                    if settled_result(a, tools.names()) is None {
                        assert(tool_gave(tools, a, res));
                    }
                }
            },
        }
        assert(session@.history.take(h0.len() as int) =~= h0) by {
            assert(before.take(h0.len() as int) == h0);
        }
        assert forall|i: int| 0 <= i < index + 1 implies reports_action(
            #[trigger] session@.history[h0.len() + i],
            actions@[i]@,
            turn,
            i as nat,
            tools,
        ) by {
            if i < index {
                assert(session@.history[h0.len() + i] == before[h0.len() + i]);
            }
        }
        index = index + 1;
    }
}

/// What the loop does after a provider call.
pub enum Step {
    /// The loop ends with this result.
    Stop(Result<String, StrataError>),
    /// The reply asked for these actions; they run next.
    Act(Vec<Action>),
}

/// Takes the outcome of the provider call of turn `turn`. A failed call ends the
/// loop with the provider's error and leaves the session as it was. A reply is
/// appended to the history and handed to the backend: no actions end the loop
/// with the reply's text; otherwise the actions run next.
pub fn take_reply<B: ActionBackend, Tr: Tracer>(
    session: &mut Session,
    backend: &B,
    tracer: &Tr,
    turn: u32,
    duration_ms: u64,
    outcome: Result<CompletionResponse, ProviderError>,
) -> (r: Step)
    ensures
        match outcome {
            Err(e) => {
                &&& final(session)@ == old(session)@
                &&& r matches Step::Stop(Err(StrataError::Provider(x))) && x == e
            },
            Ok(resp) => {
                &&& final(session)@.history == old(session)@.history.push(resp.message@)
                &&& final(session)@.turn == old(session)@.turn
                &&& match r {
                    Step::Stop(Ok(text)) => {
                        &&& text@ == message_text(resp.message@)
                        &&& backend.parses(resp.message@, Seq::empty())
                    },
                    Step::Act(actions) => {
                        &&& actions@.len() > 0
                        &&& backend.parses(resp.message@, actions_view(actions@))
                    },
                    Step::Stop(Err(_)) => false,
                }
            },
        },
{
    let response = match outcome {
        Ok(response) => response,
        Err(e) => {
            tracer.on_event(
                TraceEvent::Error {
                    turn: Some(turn),
                    message: e.to_string(),
                    duration_ms: Some(duration_ms),
                },
            );
            return Step::Stop(Err(StrataError::Provider(e)));
        },
    };
    tracer.on_event(TraceEvent::ProviderCall { turn, duration_ms, usage: response.usage });
    let ghost reply = response.message@;
    session.push(response.message);
    assert(session.history@.len() == session@.history.len());
    let last = session.history.len() - 1;
    assert(session@.history[last as int] == reply);
    assert(session.history@[last as int]@ == session@.history[last as int]);
    let actions = backend.parse_actions(&session.history[last]);
    if actions.len() == 0 {
        assert(actions_view(actions@) =~= Seq::<ActionModel>::empty());
        tracer.on_event(TraceEvent::TurnEnd { turn });
        let text = session.history[last].text();
        return Step::Stop(Ok(text));
    }
    Step::Act(actions)
}

/// One tool round of the loop: the request sent, the model's reply and token
/// usage, the actions taken from the reply, and the tool messages that answer them.
pub struct Round {
    pub request: CompletionRequestModel,
    pub reply: MessageModel,
    pub usage: Option<TokenUsage>,
    pub actions: Seq<ActionModel>,
    pub results: Seq<MessageModel>,
}

/// The messages the rounds added to the history, in order: each reply followed by
/// its tool messages.
pub open spec fn round_messages(rounds: Seq<Round>) -> Seq<MessageModel>
    decreases rounds.len(),
{
    if rounds.len() == 0 {
        Seq::empty()
    } else {
        round_messages(rounds.drop_last()) + seq![rounds.last().reply] + rounds.last().results
    }
}

/// Whether `reply` (with `usage`) is a reply the provider may give to `request`,
/// the request of a turn over `history`, and `actions` are what the backend may
/// take from it.
pub open spec fn turn_reply<P: Provider, T: Tool, B: ActionBackend>(
    provider: &P,
    tools: &ToolRegistry<T>,
    backend: &B,
    history: Seq<MessageModel>,
    request: CompletionRequestModel,
    reply: MessageModel,
    usage: Option<TokenUsage>,
    actions: Seq<ActionModel>,
) -> bool {
    &&& turn_request(request, history, tools)
    &&& provider.may_complete(request, Ok(CompletionResponseModel { message: reply, usage }))
    &&& backend.parses(reply, actions)
}

/// A round of turn `turn`, taken over `history`, is well answered: its reply is
/// one the provider may give to the turn's request, its actions are what the
/// backend took from the reply and there is at least one, and each action got the
/// one tool message that reports it.
pub open spec fn round_answered<P: Provider, T: Tool, B: ActionBackend>(
    r: Round,
    turn: int,
    history: Seq<MessageModel>,
    provider: &P,
    tools: &ToolRegistry<T>,
    backend: &B,
) -> bool {
    &&& turn_reply(provider, tools, backend, history, r.request, r.reply, r.usage, r.actions)
    &&& r.actions.len() > 0
    &&& r.results.len() == r.actions.len()
    &&& forall|i: int|
        0 <= i < r.actions.len() ==> reports_action(
            #[trigger] r.results[i],
            r.actions[i],
            turn as u32,
            i as nat,
            tools,
        )
}

/// The history after a run: the old history, then the rounds in turn order, each
/// answered over the history before it, one round per increment of `turn`.
pub open spec fn rounds_from<P: Provider, T: Tool, B: ActionBackend>(
    before: SessionModel,
    history: Seq<MessageModel>,
    turn: u32,
    rounds: Seq<Round>,
    provider: &P,
    tools: &ToolRegistry<T>,
    backend: &B,
) -> bool {
    &&& history == before.history + round_messages(rounds)
    &&& turn == before.turn + rounds.len()
    &&& forall|k: int|
        0 <= k < rounds.len() ==> round_answered(
            #[trigger] rounds[k],
            before.turn + k,
            before.history + round_messages(rounds.take(k)),
            provider,
            tools,
            backend,
        )
}

/// Appending an answered round to answered rounds keeps them answered.
proof fn lemma_round_pushed<P: Provider, T: Tool, B: ActionBackend>(
    s0: SessionModel,
    rounds: Seq<Round>,
    round: Round,
    provider: &P,
    tools: &ToolRegistry<T>,
    backend: &B,
)
    requires
        forall|k: int|
            0 <= k < rounds.len() ==> round_answered(
                #[trigger] rounds[k],
                s0.turn + k,
                s0.history + round_messages(rounds.take(k)),
                provider,
                tools,
                backend,
            ),
        round_answered(
            round,
            s0.turn + rounds.len(),
            s0.history + round_messages(rounds),
            provider,
            tools,
            backend,
        ),
    ensures
        round_messages(rounds.push(round)) == round_messages(rounds) + seq![round.reply]
            + round.results,
        forall|k: int|
            0 <= k < rounds.push(round).len() ==> round_answered(
                #[trigger] rounds.push(round)[k],
                s0.turn + k,
                s0.history + round_messages(rounds.push(round).take(k)),
                provider,
                tools,
                backend,
            ),
{
    let nr = rounds.push(round);
    assert(nr.drop_last() =~= rounds);
    assert forall|k: int| 0 <= k < nr.len() implies round_answered(
        #[trigger] nr[k],
        s0.turn + k,
        s0.history + round_messages(nr.take(k)),
        provider,
        tools,
        backend,
    ) by {
        if k < rounds.len() {
            assert(nr[k] == rounds[k]);
            assert(nr.take(k) =~= rounds.take(k));
        } else {
            assert(nr.take(k) =~= rounds);
        }
    }
}

/// Runs the agent loop until the model answers in plain text or an error is raised.
///
/// `max_turns` bounds tool rounds, not provider calls: `session.turn` grows only
/// after a round that ran tools, and a plain-text answer does not count. So with
/// `max_turns == 0` the provider is never called, and one tool call followed by an
/// answer needs `max_turns >= 2`. Past the limit the result is
/// [`LoopError::MaxTurns`], whose `partial` holds the last assistant text, if any.
pub fn run<P: Provider, T: Tool, B: ActionBackend, Tr: Tracer>(
    session: &mut Session,
    provider: &P,
    tools: &ToolRegistry<T>,
    backend: &B,
    tracer: &Tr,
    max_turns: u32,
) -> (r: Result<String, StrataError>)
    ensures
        final(session)@.history.len() >= old(session)@.history.len(),
        final(session)@.history.take(old(session)@.history.len() as int) == old(session)@.history,
        old(session)@.turn <= final(session)@.turn,
        old(session)@.turn <= max_turns ==> final(session)@.turn <= max_turns,
        old(session)@.turn >= max_turns ==> final(session)@ == old(session)@,
        match r {
            Ok(text) => {
                &&& final(session)@.history.len() > old(session)@.history.len()
                &&& text@ == message_text(final(session)@.history.last())
                &&& final(session)@.turn < max_turns
                &&& exists|rounds: Seq<Round>|
                    #[trigger] rounds_from(
                        old(session)@,
                        final(session)@.history.drop_last(),
                        final(session)@.turn,
                        rounds,
                        provider,
                        tools,
                        backend,
                    )
                &&& exists|req: CompletionRequestModel, usage: Option<TokenUsage>|
                    #[trigger] turn_reply(
                        provider,
                        tools,
                        backend,
                        final(session)@.history.drop_last(),
                        req,
                        final(session)@.history.last(),
                        usage,
                        Seq::empty(),
                    )
            },
            Err(StrataError::Loop(LoopError::MaxTurns { max_turns: m, partial })) => {
                &&& m == max_turns
                &&& final(session)@.turn >= max_turns
                &&& opt_text(partial) == last_assistant_text_of(final(session)@.history)
                &&& exists|rounds: Seq<Round>|
                    #[trigger] rounds_from(
                        old(session)@,
                        final(session)@.history,
                        final(session)@.turn,
                        rounds,
                        provider,
                        tools,
                        backend,
                    )
            },
            Err(StrataError::Provider(e)) => {
                &&& final(session)@.turn < max_turns
                &&& exists|rounds: Seq<Round>|
                    #[trigger] rounds_from(
                        old(session)@,
                        final(session)@.history,
                        final(session)@.turn,
                        rounds,
                        provider,
                        tools,
                        backend,
                    )
                &&& exists|req: CompletionRequestModel|
                    turn_request(req, final(session)@.history, tools) && #[trigger] provider.may_complete(
                        req,
                        Err(e),
                    )
            },
        },
{
    let ghost h0 = session@.history;
    let ghost s0 = session@;
    let ghost mut rounds: Seq<Round> = Seq::empty();
    assert(session@.history.take(h0.len() as int) =~= h0);
    assert(h0 + round_messages(rounds) =~= h0);
    loop
        invariant
            rounds_from(s0, session@.history, session@.turn, rounds, provider, tools, backend),
            session@.history.len() >= h0.len(),
            session@.history.take(h0.len() as int) == h0,
            s0 == old(session)@,
            h0 == s0.history,
            s0.turn <= session@.turn,
            s0.turn <= max_turns ==> session@.turn <= max_turns,
            s0.turn >= max_turns ==> session@ == s0,
        decreases max_turns - session.turn,
    {
        if session.turn >= max_turns {
            let partial = session.last_assistant_text();
            let err = LoopError::MaxTurns { max_turns, partial };
            tracer.on_event(
                TraceEvent::Error { turn: Some(session.turn), message: err.to_string(), duration_ms: None },
            );
            return Err(StrataError::Loop(err));
        }
        let turn = session.turn;
        tracer.on_event(TraceEvent::TurnStart { turn });
        let request = build_request(session, tools);
        let ghost req = request@;
        let clock = start_clock();
        let outcome = provider.complete(request);
        let ghost oc = outcome;
        let duration_ms = elapsed_ms(&clock);
        let ghost before = session@.history;
        let step = take_reply(session, backend, tracer, turn, duration_ms, outcome);
        let actions = match step {
            Step::Stop(result) => {
                proof {
                    match oc {
                        Ok(resp) => {
                            assert(session@.history.drop_last() =~= before);
                            assert(turn_reply(
                                provider,
                                tools,
                                backend,
                                before,
                                req,
                                resp.message@,
                                resp.usage,
                                Seq::empty(),
                            ));
                            assert(session@.history.take(h0.len() as int) =~= h0) by {
                                assert(before.take(h0.len() as int) == h0);
                            }
                        },
                        Err(e) => {
                            assert(provider.may_complete(req, Err(e)));
                        },
                    }
                }
                return result;
            },
            Step::Act(actions) => actions,
        };
        let ghost resp = oc->Ok_0;
        let ghost reply = resp.message@;
        assert(session@.history.take(h0.len() as int) =~= h0) by {
            assert(before.take(h0.len() as int) == h0);
        }
        let ghost mid = session@.history;
        let ghost acts = actions_view(actions@);
        execute_actions(session, tools, tracer, actions);
        assert(session@.history.take(h0.len() as int) =~= h0) by {
            assert(session@.history.take(mid.len() as int) == mid);
            assert(mid.take(h0.len() as int) == h0);
        }
        let ghost round = Round {
            request: req,
            reply,
            usage: resp.usage,
            actions: acts,
            results: session@.history.subrange(mid.len() as int, session@.history.len() as int),
        };
        assert(round_answered(round, s0.turn + rounds.len(), before, provider, tools, backend)) by {
            assert forall|i: int| 0 <= i < round.actions.len() implies reports_action(
                #[trigger] round.results[i],
                round.actions[i],
                (s0.turn + rounds.len()) as u32,
                i as nat,
                tools,
            ) by {
                assert(round.results[i] == session@.history[mid.len() + i]);
            }
        }
        proof {
            lemma_round_pushed(s0, rounds, round, provider, tools, backend);
            assert(session@.history =~= mid + round.results) by {
                assert(session@.history.take(mid.len() as int) == mid);
            }
            assert(mid =~= before.push(reply));
            assert(session@.history =~= h0 + round_messages(rounds.push(round)));
        }
        tracer.on_event(TraceEvent::TurnEnd { turn });
        session.turn = turn + 1;
        proof {
            let nr = rounds.push(round);
            rounds = nr;
        }
    }
}

} // verus!
