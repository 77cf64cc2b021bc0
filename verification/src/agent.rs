//! The conversation that the agent keeps with the model, and the decisions it
//! takes while a reply streams in.

use std::collections::HashMap;
use vstd::prelude::*;
use crate::config::{AgentConfig, Config};
use crate::render::text::ends_with_newline;
use crate::strings::chars_of;
use crate::json::{json_string_member, string_member};
use crate::tool_calls::{
    assembled_calls, assembled_view, calls_for, calls_view, chunk_arguments, chunk_id, chunk_name,
    has_index, index_order, is_index_order, joined_arguments, last_id, last_name, lemma_absent,
    lemma_calls_for_skip, lemma_index_order_is, lemma_insert_increasing, lemma_step, strictly_increasing, FunctionCall,
    ToolCall, ToolCallChunk, ToolCallError, ToolCallView,
};

verus! {

/// A tool call while its chunks are still being gathered.
struct PendingCall {
    index: u32,
    id: Option<String>,
    name: Option<String>,
    arguments: String,
}

spec fn opt_view(o: Option<String>) -> Option<Seq<char>> {
    match o {
        Some(s) => Some(s@),
        None => None,
    }
}

spec fn pending_matches(g: PendingCall, chunks: Seq<ToolCallChunk>) -> bool {
    &&& opt_view(g.id) == last_id(chunks, g.index)
    &&& opt_view(g.name) == last_name(chunks, g.index)
    &&& g.arguments@ == joined_arguments(chunks, g.index)
}

spec fn prepend_calls(
    p: Seq<ToolCallView>,
    r: Result<Seq<ToolCallView>, ToolCallError>,
) -> Result<Seq<ToolCallView>, ToolCallError> {
    match r {
        Ok(s) => Ok(p + s),
        Err(e) => Err(e),
    }
}

/// Adds what one chunk carries to the call it belongs to.
fn absorb_chunk(g: &mut PendingCall, chunk: &ToolCallChunk)
    ensures
        final(g).index == old(g).index,
        opt_view(final(g).id) == (if chunk_id(*chunk) is Some {
            chunk_id(*chunk)
        } else {
            opt_view(old(g).id)
        }),
        opt_view(final(g).name) == (if chunk_name(*chunk) is Some {
            chunk_name(*chunk)
        } else {
            opt_view(old(g).name)
        }),
        final(g).arguments@ == old(g).arguments@ + chunk_arguments(*chunk),
{
    if let Some(id) = &chunk.id {
        g.id = Some(id.clone());
    }
    if let Some(f) = &chunk.function {
        if let Some(name) = &f.name {
            g.name = Some(name.clone());
        }
        if let Some(a) = &f.arguments {
            g.arguments.append(a.as_str());
        } else {
            assert(g.arguments@ =~= g.arguments@ + chunk_arguments(*chunk));
        }
    } else {
        assert(g.arguments@ =~= g.arguments@ + chunk_arguments(*chunk));
    }
}

/// A message of the conversation with the model.
#[derive(Clone, Debug)]
pub enum ChatMessage {
    /// The instructions the conversation starts with.
    System(String),
    /// What the user typed.
    User(String),
    /// A reply of the model in text.
    Assistant(String),
    /// A reply of the model that asks for tools to be run.
    AssistantToolCalls(Vec<ToolCall>),
    /// What a tool handed back, for the call with the given id.
    Tool { content: String, tool_call_id: String },
}

/// The mathematical model of a [`ChatMessage`].
pub enum ChatMessageView {
    System(Seq<char>),
    User(Seq<char>),
    Assistant(Seq<char>),
    AssistantToolCalls(Seq<ToolCallView>),
    Tool { content: Seq<char>, tool_call_id: Seq<char> },
}

impl View for ChatMessage {
    type V = ChatMessageView;

    open spec fn view(&self) -> ChatMessageView {
        match self {
            ChatMessage::System(s) => ChatMessageView::System(s@),
            ChatMessage::User(s) => ChatMessageView::User(s@),
            ChatMessage::Assistant(s) => ChatMessageView::Assistant(s@),
            ChatMessage::AssistantToolCalls(calls) => ChatMessageView::AssistantToolCalls(calls_view(calls@)),
            ChatMessage::Tool { content, tool_call_id } => ChatMessageView::Tool {
                content: content@,
                tool_call_id: tool_call_id@,
            },
        }
    }
}

/// The models of a sequence of messages.
pub open spec fn messages_view(ms: Seq<ChatMessage>) -> Seq<ChatMessageView> {
    ms.map_values(|m: ChatMessage| m@)
}

/// A tool that the model may call: its name, what it does, and the JSON
/// schema of its arguments.
#[derive(Clone, Debug)]
pub struct ToolDefinition {
    pub name: String,
    pub description: String,
    pub parameters: String,
    pub strict: bool,
}

/// The mathematical model of a [`ToolDefinition`].
pub struct ToolDefinitionView {
    pub name: Seq<char>,
    pub description: Seq<char>,
    pub parameters: Seq<char>,
    pub strict: bool,
}

impl View for ToolDefinition {
    type V = ToolDefinitionView;

    open spec fn view(&self) -> ToolDefinitionView {
        ToolDefinitionView {
            name: self.name@,
            description: self.description@,
            parameters: self.parameters@,
            strict: self.strict,
        }
    }
}

/// The one tool the agent offers: running a shell command.
pub open spec fn command_tool() -> ToolDefinitionView {
    ToolDefinitionView {
        name: "execute_command"@,
        description: "Execute command in shell"@,
        parameters: command_tool_parameters(),
        strict: true,
    }
}

/// The models of a sequence of tool definitions.
pub open spec fn tools_view(ts: Seq<ToolDefinition>) -> Seq<ToolDefinitionView> {
    ts.map_values(|t: ToolDefinition| t@)
}

/// The JSON schema of the arguments of the shell tool: one string member
/// `command`.
pub open spec fn command_tool_parameters() -> Seq<char> {
    "{\"type\":\"object\",\"properties\":{\"command\":{\"type\":\"string\",\"description\":\"The shell command to execute\"}},\"required\":[\"command\"],\"additionalProperties\":false}"@
}

/// Why the model stopped a reply.
#[derive(Clone, Copy, Debug, PartialEq, Eq, Structural)]
pub enum FinishReason {
    /// The reply is complete.
    Stop,
    /// The reply asks for tool calls.
    ToolCalls,
    /// Any other reason.
    Other,
}

/// One streamed piece of a reply.
pub struct StreamDelta {
    /// Text of the reply.
    pub content: Option<String>,
    /// Pieces of tool calls.
    pub tool_calls: Option<Vec<ToolCallChunk>>,
    /// Present on the last piece.
    pub finish_reason: Option<FinishReason>,
}

/// A reply while it streams in: the text received and the tool-call chunks
/// received.
pub struct ChatTurn {
    full_content: String,
    tool_call_chunks: Vec<ToolCallChunk>,
}

/// The mathematical model of a [`ChatTurn`].
pub struct ChatTurnView {
    pub content: Seq<char>,
    pub chunks: Seq<ToolCallChunk>,
}

impl View for ChatTurn {
    type V = ChatTurnView;

    closed spec fn view(&self) -> ChatTurnView {
        ChatTurnView { content: self.full_content@, chunks: self.tool_call_chunks@ }
    }
}

/// What to do after a piece of a reply arrived.
pub enum ChatStep {
    /// Wait for the next piece.
    Continue,
    /// The reply is complete; `content` is its text, which ends with a
    /// newline (`newline_added` tells whether one was added to the text
    /// received).
    Finished { content: String, newline_added: bool },
    /// The reply asks for these tool calls.
    CallTools(Vec<ToolCall>),
    /// The reply asks for tool calls whose chunks are incomplete.
    Failed(ToolCallError),
}

/// `s` followed by a newline unless it already ends with one.
pub open spec fn with_final_newline(s: Seq<char>) -> Seq<char> {
    if ends_with_newline(s) {
        s
    } else {
        s + "\n"@
    }
}

/// A finished reply ends with a newline, and finishing it again changes
/// nothing.
pub proof fn law_final_newline(s: Seq<char>)
    ensures
        ends_with_newline(with_final_newline(s)),
        with_final_newline(with_final_newline(s)) == with_final_newline(s),
        ends_with_newline(s) ==> with_final_newline(s) == s,
{
    reveal_strlit("\n");
    let t = with_final_newline(s);
    if !ends_with_newline(s) {
        assert(t.last() == '\n');
    }
}

/// A finished reply keeps every character received, in order, and adds at
/// most one: a newline, exactly when the text received does not end with one.
pub proof fn law_finished_reply_keeps_text(s: Seq<char>)
    ensures
        with_final_newline(s).take(s.len() as int) == s,
        with_final_newline(s).len() <= s.len() + 1,
        !ends_with_newline(s) ==> with_final_newline(s) == s + "\n"@,
        !ends_with_newline(s) ==> with_final_newline(s).len() == s.len() + 1
            && with_final_newline(s).last() == '\n',
{
    reveal_strlit("\n");
    let t = with_final_newline(s);
    if !ends_with_newline(s) {
        assert(t.take(s.len() as int) =~= s);
    } else {
        assert(t.take(s.len() as int) =~= s);
    }
}

/// The text carried by a piece (empty when it carries none).
pub open spec fn delta_content(d: StreamDelta) -> Seq<char> {
    match d.content {
        Some(s) => s@,
        None => Seq::empty(),
    }
}

/// The tool-call chunks carried by a piece.
pub open spec fn delta_chunks(d: StreamDelta) -> Seq<ToolCallChunk> {
    match d.tool_calls {
        Some(v) => v@,
        None => Seq::empty(),
    }
}

impl ChatTurn {
    /// A reply of which nothing has arrived yet.
    pub fn new() -> (r: Self)
        ensures
            r@.content == Seq::<char>::empty(),
            r@.chunks == Seq::<ToolCallChunk>::empty(),
    {
        ChatTurn { full_content: String::new(), tool_call_chunks: Vec::new() }
    }

    /// Takes in one piece of the reply: its text and tool-call chunks are
    /// added to what arrived before; then a stopped reply is finished (with a
    /// final newline), a reply stopped for tool calls hands out the calls that
    /// all its chunks describe, and otherwise the reply goes on.
    pub fn push_delta(&mut self, delta: StreamDelta) -> (r: ChatStep)
        ensures
            ({
                let content = old(self)@.content + delta_content(delta);
                let chunks = old(self)@.chunks + delta_chunks(delta);
                match delta.finish_reason {
                    Some(FinishReason::Stop) => r matches ChatStep::Finished { content: c, newline_added }
                        && c@ == with_final_newline(content)
                        && c@.take(content.len() as int) == content
                        && c@.len() <= content.len() + 1
                        && (!ends_with_newline(content) ==> c@ == content + "\n"@)
                        && newline_added == (c@ != content)
                        && final(self)@ == (ChatTurnView { content: c@, chunks }),
                    Some(FinishReason::ToolCalls) => final(self)@ == (ChatTurnView {
                        content,
                        chunks: Seq::empty(),
                    }) && match assembled_calls(chunks) {
                        Ok(calls) => r matches ChatStep::CallTools(v) && calls_view(v@) == calls,
                        Err(e) => r == ChatStep::Failed(e),
                    },
                    _ => r is Continue && final(self)@ == (ChatTurnView { content, chunks }),
                }
            }),
    {
        let ghost content = old(self)@.content + delta_content(delta);
        let ghost chunks = old(self)@.chunks + delta_chunks(delta);
        match delta.content {
            Some(text) => {
                self.full_content.append(text.as_str());
            },
            None => {
                assert(self.full_content@ + Seq::<char>::empty() =~= self.full_content@);
            },
        }
        match delta.tool_calls {
            Some(calls) => {
                let mut calls = calls;
                self.tool_call_chunks.append(&mut calls);
            },
            None => {
                assert(self.tool_call_chunks@ + Seq::<ToolCallChunk>::empty() =~= self.tool_call_chunks@);
            },
        }
        match delta.finish_reason {
            Some(FinishReason::Stop) => {
                let chars = chars_of(self.full_content.as_str());
                let newline_added = if chars.len() > 0 && chars[chars.len() - 1] == '\n' {
                    false
                } else {
                    self.full_content.append("\n");
                    proof {
                        reveal_strlit("\n");
                        assert(self.full_content@.len() == content.len() + 1);
                    }
                    true
                };
                proof {
                    law_finished_reply_keeps_text(content);
                }
                ChatStep::Finished { content: self.full_content.clone(), newline_added }
            },
            Some(FinishReason::ToolCalls) => {
                let mut taken: Vec<ToolCallChunk> = Vec::new();
                std::mem::swap(&mut taken, &mut self.tool_call_chunks);
                match Agent::build_tool_calls(taken) {
                    Ok(calls) => ChatStep::CallTools(calls),
                    Err(e) => ChatStep::Failed(e),
                }
            },
            _ => ChatStep::Continue,
        }
    }
}

/// The agent's side of a conversation.
pub struct Agent {
    messages: Vec<ChatMessage>,
    tools: Vec<ToolDefinition>,
    config: AgentConfig,
}

/// The mathematical model of an [`Agent`].
pub struct AgentView {
    pub messages: Seq<ChatMessageView>,
    pub tools: Seq<ToolDefinitionView>,
    pub model: Seq<char>,
    pub system_prompt: Seq<char>,
}

/// A conversation that holds only the system prompt.
pub open spec fn fresh_view(model: Seq<char>, system_prompt: Seq<char>) -> AgentView {
    AgentView {
        messages: seq![ChatMessageView::System(system_prompt)],
        tools: seq![command_tool()],
        model,
        system_prompt,
    }
}

impl View for Agent {
    type V = AgentView;

    closed spec fn view(&self) -> AgentView {
        AgentView {
            messages: messages_view(self.messages@),
            tools: tools_view(self.tools@),
            model: self.config.model@,
            system_prompt: self.config.system_prompt@,
        }
    }
}

/// What the shell tool is asked to do.
#[derive(Debug)]
pub enum ToolAction {
    ExecuteCommand { command: String },
}

/// Why a tool call cannot be carried out.
#[derive(Debug)]
pub enum ToolError {
    /// The arguments are not JSON; the parser's message.
    InvalidArguments(String),
    /// The arguments have no string member `command`.
    MissingCommand,
    /// The model asked for a tool that the agent does not offer.
    UnknownTool(String),
}

impl ToolError {
    /// The message shown for the error.
    pub fn message(&self) -> (r: String)
        ensures
            match self {
                ToolError::InvalidArguments(m) => r@ == m@,
                ToolError::MissingCommand => r@ == "Missing command"@,
                ToolError::UnknownTool(name) => r@ == "Unknown tool: "@ + name@,
            },
    {
        match self {
            ToolError::InvalidArguments(m) => m.clone(),
            ToolError::MissingCommand => "Missing command".to_owned(),
            ToolError::UnknownTool(name) => {
                let mut text = "Unknown tool: ".to_owned();
                text.append(name.as_str());
                text
            },
        }
    }
}

/// The action that a tool call asks for: the shell tool with the `command`
/// member of its JSON arguments; or why it cannot be carried out (arguments
/// that are not JSON are reported before an unknown tool).
pub open spec fn tool_action_for(
    name: Seq<char>,
    arguments: Seq<char>,
) -> Result<Seq<char>, ToolErrorView> {
    match json_string_member(arguments, "command"@) {
        Err(m) => Err(ToolErrorView::InvalidArguments(m)),
        Ok(field) => if name == "execute_command"@ {
            match field {
                Some(c) => Ok(c),
                None => Err(ToolErrorView::MissingCommand),
            }
        } else {
            Err(ToolErrorView::UnknownTool(name))
        },
    }
}

/// The command that a call of the shell tool runs is exactly the string value
/// of the `command` member of its JSON arguments, whatever it holds; arguments
/// that are not JSON, a missing or non-string `command`, and any other tool
/// are refused, each with its own error.
pub proof fn law_command_is_the_member(name: Seq<char>, arguments: Seq<char>)
    ensures
        forall|c: Seq<char>| name == "execute_command"@
            && #[trigger] json_string_member(arguments, "command"@) == Ok::<Option<Seq<char>>, Seq<char>>(Some(c))
            ==> tool_action_for(name, arguments) == Ok::<Seq<char>, ToolErrorView>(c),
        forall|m: Seq<char>| #[trigger] json_string_member(arguments, "command"@) == Err::<Option<Seq<char>>, Seq<char>>(m)
            ==> tool_action_for(name, arguments) == Err::<Seq<char>, ToolErrorView>(ToolErrorView::InvalidArguments(m)),
        name == "execute_command"@ && json_string_member(arguments, "command"@) == Ok::<Option<Seq<char>>, Seq<char>>(None)
            ==> tool_action_for(name, arguments) == Err::<Seq<char>, ToolErrorView>(ToolErrorView::MissingCommand),
        name != "execute_command"@ && json_string_member(arguments, "command"@) is Ok
            ==> tool_action_for(name, arguments) == Err::<Seq<char>, ToolErrorView>(ToolErrorView::UnknownTool(name)),
{
}

/// The mathematical model of a [`ToolError`].
pub enum ToolErrorView {
    InvalidArguments(Seq<char>),
    MissingCommand,
    UnknownTool(Seq<char>),
}

/// The model of the result of [`Agent::tool_action`]: the command to run.
pub open spec fn tool_action_view(r: Result<ToolAction, ToolError>) -> Result<Seq<char>, ToolErrorView> {
    match r {
        Ok(ToolAction::ExecuteCommand { command }) => Ok(command@),
        Err(ToolError::InvalidArguments(m)) => Err(ToolErrorView::InvalidArguments(m@)),
        Err(ToolError::MissingCommand) => Err(ToolErrorView::MissingCommand),
        Err(ToolError::UnknownTool(n)) => Err(ToolErrorView::UnknownTool(n@)),
    }
}

/// The message shown for a tool error (see [`ToolError::message`]).
pub open spec fn tool_error_message(e: ToolErrorView) -> Seq<char> {
    match e {
        ToolErrorView::InvalidArguments(m) => m,
        ToolErrorView::MissingCommand => "Missing command"@,
        ToolErrorView::UnknownTool(name) => "Unknown tool: "@ + name,
    }
}

/// The model of a command's outcome.
pub open spec fn outcome_view(r: Result<String, String>) -> Result<Seq<char>, Seq<char>> {
    match r {
        Ok(s) => Ok(s@),
        Err(e) => Err(e@),
    }
}

/// `run_command` can answer `outcome` for the command `command`.
pub open spec fn command_answers<F: Fn(&str) -> Result<String, String>>(
    run_command: F,
    command: Seq<char>,
    outcome: Result<Seq<char>, Seq<char>>,
) -> bool {
    exists|s: &str, r: Result<String, String>|
        s@ == command && call_ensures(run_command, (s,), r) && outcome_view(r) == outcome
}

/// The `i`-th message after `start` in `after` is the result of running the
/// tool call `call` with `run_command`.
pub open spec fn records_tool_result<F: Fn(&str) -> Result<String, String>>(
    m: ChatMessageView,
    call: ToolCallView,
    run_command: F,
) -> bool {
    &&& m matches ChatMessageView::Tool { content, tool_call_id }
    &&& tool_call_id == call.id
    &&& tool_action_for(call.name, call.arguments) matches Ok(command)
    &&& command_answers(run_command, command, Ok(content))
}

fn copy_call(c: &ToolCall) -> (r: ToolCall)
    ensures
        r@ == c@,
{
    ToolCall {
        id: c.id.clone(),
        function: FunctionCall { name: c.function.name.clone(), arguments: c.function.arguments.clone() },
    }
}

fn copy_calls(calls: &Vec<ToolCall>) -> (r: Vec<ToolCall>)
    ensures
        calls_view(r@) == calls_view(calls@),
{
    let mut r: Vec<ToolCall> = Vec::new();
    let mut i: usize = 0;
    while i < calls.len()
        invariant
            i <= calls.len(),
            r@.len() == i,
            forall|j: int| 0 <= j < i ==> (#[trigger] r@[j])@ == calls@[j]@,
        decreases calls.len() - i,
    {
        let c = copy_call(&calls[i]);
        r.push(c);
        i = i + 1;
    }
    assert(calls_view(r@) =~= calls_view(calls@));
    r
}

impl Agent {
    /// The agent keeps the system prompt as the first message.
    pub closed spec fn wf(&self) -> bool {
        &&& self.messages@.len() >= 1
        &&& self.messages@[0]@ == ChatMessageView::System(self.config.system_prompt@)
        &&& tools_view(self.tools@) == seq![command_tool()]
    }

    /// Every operation keeps the system prompt as the first message of the
    /// conversation, and the shell tool as the one tool offered.
    pub proof fn law_system_prompt_first(&self)
        requires
            self.wf(),
        ensures
            self@.messages.len() >= 1,
            self@.messages[0] == ChatMessageView::System(self@.system_prompt),
            self@.tools == seq![command_tool()],
    {
    }

    /// Starts a conversation whose first message is the configured system
    /// prompt, offering the shell tool.
    pub fn new(config: Config) -> (r: Self)
        ensures
            r.wf(),
            r@ == fresh_view(config.agent.model@, config.agent.system_prompt@),
    {
        let agent_config = config.agent;
        let prompt = agent_config.system_prompt.clone();
        let mut messages: Vec<ChatMessage> = Vec::new();
        messages.push(ChatMessage::System(prompt));
        let mut tools: Vec<ToolDefinition> = Vec::new();
        tools.push(ToolDefinition {
            name: "execute_command".to_owned(),
            description: "Execute command in shell".to_owned(),
            parameters: "{\"type\":\"object\",\"properties\":{\"command\":{\"type\":\"string\",\"description\":\"The shell command to execute\"}},\"required\":[\"command\"],\"additionalProperties\":false}".to_owned(),
            strict: true,
        });
        let r = Agent { messages, tools, config: agent_config };
        assert(messages_view(r.messages@) =~= seq![ChatMessageView::System(config.agent.system_prompt@)]);
        assert(tools_view(r.tools@) =~= seq![command_tool()]);
        r
    }

    /// The conversation so far, oldest message first.
    pub fn messages(&self) -> (r: &[ChatMessage])
        ensures
            messages_view(r@) == self@.messages,
    {
        self.messages.as_slice()
    }

    /// The tools offered to the model.
    pub fn tools(&self) -> (r: &[ToolDefinition])
        ensures
            tools_view(r@) == self@.tools,
    {
        self.tools.as_slice()
    }

    /// The model the conversation is held with.
    pub fn model(&self) -> (r: &str)
        ensures
            r@ == self@.model,
    {
        self.config.model.as_str()
    }

    /// Forgets the conversation, keeping only the system prompt.
    pub fn clear(&mut self)
        requires
            old(self).wf(),
        ensures
            final(self).wf(),
            final(self)@ == fresh_view(old(self)@.model, old(self)@.system_prompt),
    {
        self.messages.truncate(1);
        assert(messages_view(self.messages@) =~= seq![ChatMessageView::System(self.config.system_prompt@)]);
    }

    /// Adds what the user typed to the conversation.
    pub fn push_user_message(&mut self, input: &str)
        requires
            old(self).wf(),
        ensures
            final(self).wf(),
            final(self)@ == (AgentView {
                messages: old(self)@.messages.push(ChatMessageView::User(input@)),
                ..old(self)@
            }),
    {
        self.messages.push(ChatMessage::User(input.to_owned()));
        assert(messages_view(self.messages@) =~= messages_view(old(self).messages@).push(ChatMessageView::User(input@)));
    }

    /// Adds a text reply of the model to the conversation.
    pub fn push_assistant_message(&mut self, content: String)
        requires
            old(self).wf(),
        ensures
            final(self).wf(),
            final(self)@ == (AgentView {
                messages: old(self)@.messages.push(ChatMessageView::Assistant(content@)),
                ..old(self)@
            }),
    {
        let ghost c = content@;
        self.messages.push(ChatMessage::Assistant(content));
        assert(messages_view(self.messages@) =~= messages_view(old(self).messages@).push(ChatMessageView::Assistant(c)));
    }

    /// Adds a reply of the model that asks for tool calls to the conversation.
    pub fn push_tool_calls(&mut self, calls: Vec<ToolCall>)
        requires
            old(self).wf(),
        ensures
            final(self).wf(),
            final(self)@ == (AgentView {
                messages: old(self)@.messages.push(ChatMessageView::AssistantToolCalls(calls_view(calls@))),
                ..old(self)@
            }),
    {
        let ghost c = calls_view(calls@);
        self.messages.push(ChatMessage::AssistantToolCalls(calls));
        assert(messages_view(self.messages@) =~= messages_view(old(self).messages@).push(ChatMessageView::AssistantToolCalls(c)));
    }

    /// Adds what a tool handed back for the call `tool_call_id`.
    pub fn push_tool_result(&mut self, content: String, tool_call_id: String)
        requires
            old(self).wf(),
        ensures
            final(self).wf(),
            final(self)@ == (AgentView {
                messages: old(self)@.messages.push(ChatMessageView::Tool {
                    content: content@,
                    tool_call_id: tool_call_id@,
                }),
                ..old(self)@
            }),
    {
        let ghost m = ChatMessageView::Tool { content: content@, tool_call_id: tool_call_id@ };
        self.messages.push(ChatMessage::Tool { content, tool_call_id });
        assert(messages_view(self.messages@) =~= messages_view(old(self).messages@).push(m));
    }

    /// Carries out a reply that asks for tool calls: the reply goes into the
    /// conversation, then the calls are run one after the other with
    /// `run_command`, each result going into the conversation right after
    /// the ones before. The first call that cannot be carried out, or whose
    /// command fails, ends the run with its message, and the calls after it
    /// are not run.
    pub fn run_tool_calls<F: Fn(&str) -> Result<String, String>>(
        &mut self,
        calls: Vec<ToolCall>,
        run_command: F,
    ) -> (r: Result<(), String>)
        requires
            old(self).wf(),
            forall|s: &str| run_command.requires((s,)),
        ensures
            final(self).wf(),
            ({
                let base = old(self)@.messages.push(ChatMessageView::AssistantToolCalls(calls_view(calls@)));
                let done = (final(self)@.messages.len() - base.len()) as int;
                &&& final(self)@ == (AgentView { messages: final(self)@.messages, ..old(self)@ })
                &&& base.len() <= final(self)@.messages.len() <= base.len() + calls@.len()
                &&& final(self)@.messages.take(base.len() as int) == base
                &&& forall|i: int| 0 <= i < done ==> records_tool_result(
                    #[trigger] final(self)@.messages[base.len() + i], calls@[i]@, run_command)
                &&& r is Ok ==> done == calls@.len()
                &&& r matches Err(e) ==> done < calls@.len() && match tool_action_for(
                    calls@[done]@.name, calls@[done]@.arguments) {
                    Err(te) => e@ == tool_error_message(te),
                    Ok(command) => command_answers(run_command, command, Err(e@)),
                }
            }),
    {
        let copy = copy_calls(&calls);
        self.push_tool_calls(copy);
        let ghost base = self@.messages;
        let n: usize = calls.len();
        let mut i: usize = 0;
        while i < n
            invariant
                n == calls@.len(),
                i <= n,
                self.wf(),
                forall|s: &str| run_command.requires((s,)),
                self@ == (AgentView { messages: self@.messages, ..old(self)@ }),
                base == old(self)@.messages.push(ChatMessageView::AssistantToolCalls(calls_view(calls@))),
                self@.messages.len() == base.len() + i,
                self@.messages.take(base.len() as int) == base,
                forall|j: int| 0 <= j < i ==> records_tool_result(
                    #[trigger] self@.messages[base.len() + j], calls@[j]@, run_command),
            decreases n - i,
        {
            let call = &calls[i];
            match self.tool_action(call) {
                Err(e) => {
                    return Err(e.message());
                },
                Ok(ToolAction::ExecuteCommand { command }) => {
                    let outcome = run_command(command.as_str());
                    proof {
                        assert(outcome_view(outcome) == outcome_view(outcome));
                    }
                    match outcome {
                        Err(m) => {
                            return Err(m);
                        },
                        Ok(out) => {
                            let ghost before = self@.messages;
                            let ghost content = out@;
                            self.push_tool_result(out, call.id.clone());
                            proof {
                                assert(self@.messages.take(base.len() as int) =~= before.take(base.len() as int));
                                assert forall|j: int| 0 <= j < i + 1 implies records_tool_result(
                                    #[trigger] self@.messages[base.len() + j], calls@[j]@, run_command) by {
                                    if j < i {
                                        assert(self@.messages[base.len() + j] == before[base.len() + j]);
                                    }
                                }
                            }
                        },
                    }
                },
            }
            i = i + 1;
        }
        Ok(())
    }

    /// What a tool call asks to be done (see [`tool_action_for`]).
    pub fn tool_action(&self, tool_call: &ToolCall) -> (r: Result<ToolAction, ToolError>)
        ensures
            tool_action_view(r) == tool_action_for(tool_call.function.name@, tool_call.function.arguments@),
    {
        let args = string_member(tool_call.function.arguments.as_str(), "command");
        match args {
            Err(m) => Err(ToolError::InvalidArguments(m)),
            Ok(field) => {
                if tool_call.function.name == "execute_command".to_owned() {
                    match field {
                        Some(command) => Ok(ToolAction::ExecuteCommand { command }),
                        None => Err(ToolError::MissingCommand),
                    }
                } else {
                    Err(ToolError::UnknownTool(tool_call.function.name.clone()))
                }
            },
        }
    }

    /// Puts together the tool calls that the chunks of a streamed reply
    /// describe: one call per chunk index, in increasing order of index, with
    /// the last id and function name given for that index and the arguments of
    /// its chunks joined in order. Fails with the error of the first call, in
    /// that order, that has no id or no function name.
    #[verifier::loop_isolation(false)]
    pub fn build_tool_calls(chunks: Vec<ToolCallChunk>) -> (r: Result<Vec<ToolCall>, ToolCallError>)
        ensures
            assembled_view(r) == assembled_calls(chunks@),
    {
        broadcast use vstd::std_specs::hash::group_hash_axioms;
        let ghost cs = chunks@;
        let n: usize = chunks.len();
        let mut groups: HashMap<u32, PendingCall> = HashMap::new();
        let mut indices: Vec<u32> = Vec::new();
        let mut i: usize = 0;
        assert forall|k: u32| !has_index(cs.take(0), k) by {}
        while i < n
            invariant
                n == cs.len(),
                i <= n,
                is_index_order(indices@, cs.take(i as int)),
                forall|k: u32| #[trigger] groups@.contains_key(k) <==> indices@.contains(k),
                forall|k: u32| #[trigger] groups@.contains_key(k) ==> groups@[k].index == k
                    && pending_matches(groups@[k], cs.take(i as int)),
            decreases n - i,
        {
            let chunk = &chunks[i];
            let k = chunk.index;
            let ghost keys = indices@;
            let ghost old_groups = groups@;
            let mut g = match groups.remove(&k) {
                Some(g) => g,
                None => {
                    let mut p: usize = 0;
                    while p < indices.len() && indices[p] < k
                        invariant
                            p <= indices.len(),
                            forall|q: int| 0 <= q < p ==> indices@[q] < k,
                        decreases indices.len() - p,
                    {
                        p = p + 1;
                    }
                    proof {
                        assert(!keys.contains(k));
                        if p < keys.len() {
                            assert(keys[p as int] != k) by {
                                if keys[p as int] == k {
                                    assert(keys.contains(k));
                                }
                            }
                        }
                        lemma_insert_increasing(keys, p as int, k);
                    }
                    indices.insert(p, k);
                    PendingCall { index: k, id: None, name: None, arguments: String::new() }
                },
            };
            proof {
                if old_groups.contains_key(k) {
                    assert(g == old_groups[k]);
                    assert(indices@ == keys);
                } else {
                    assert(!has_index(cs.take(i as int), k));
                    lemma_absent(cs.take(i as int), k);
                    assert(Seq::<char>::empty() + chunk_arguments(*chunk) =~= chunk_arguments(*chunk));
                }
                assert(pending_matches(g, cs.take(i as int)));
            }
            absorb_chunk(&mut g, chunk);
            groups.insert(k, g);
            proof {
                assert forall|x: u32| indices@.contains(x) <==> has_index(cs.take(i + 1), x) by {
                    lemma_step(cs, i as int, x);
                }
                assert forall|x: u32| #[trigger] groups@.contains_key(x) implies groups@[x].index == x
                    && pending_matches(groups@[x], cs.take(i + 1)) by {
                    lemma_step(cs, i as int, x);
                    if x != k {
                        assert(groups@[x] == old_groups[x]);
                    }
                }
            }
            i = i + 1;
        }
        proof {
            assert(cs.take(n as int) =~= cs);
            lemma_index_order_is(indices@, cs);
        }
        let ghost keys = indices@;
        let mut calls: Vec<ToolCall> = Vec::new();
        let mut j: usize = 0;
        proof {
            assert(keys.skip(0) =~= keys);
            assert(calls_view(calls@) =~= Seq::<ToolCallView>::empty());
            match calls_for(keys, cs) {
                Ok(s) => {
                    assert(Seq::<ToolCallView>::empty() + s =~= s);
                },
                Err(e) => {},
            }
        }
        while j < indices.len()
            invariant
                keys == indices@,
                keys == index_order(cs),
                strictly_increasing(keys),
                forall|t: int| j <= t < keys.len() ==> #[trigger] groups@.contains_key(keys[t])
                    && pending_matches(groups@[keys[t]], cs) && groups@[keys[t]].index == keys[t],
                j <= indices.len(),
                calls_for(keys, cs) == prepend_calls(calls_view(calls@), calls_for(keys.skip(j as int), cs)),
            decreases indices.len() - j,
        {
            let idx = indices[j];
            let ghost old_groups = groups@;
            proof {
                lemma_calls_for_skip(keys, cs, j as int);
                assert(groups@.contains_key(keys[j as int]));
            }
            let g = match groups.remove(&idx) {
                Some(g) => g,
                None => {
                    proof {
                        assert(false);
                    }
                    return Err(ToolCallError::MissingId);
                },
            };
            proof {
                assert(g == old_groups[idx]);
                assert forall|t: int| j + 1 <= t < keys.len() implies #[trigger] groups@.contains_key(keys[t])
                    && pending_matches(groups@[keys[t]], cs) && groups@[keys[t]].index == keys[t] by {
                    assert(keys[j as int] < keys[t]);
                    assert(old_groups.contains_key(keys[t]));
                }
            }
            let PendingCall { index: _, id, name, arguments } = g;
            match id {
                None => {
                    return Err(ToolCallError::MissingId);
                },
                Some(id) => {
                    match name {
                        None => {
                            return Err(ToolCallError::MissingName);
                        },
                        Some(name) => {
                            let call = ToolCall { id, function: FunctionCall { name, arguments } };
                            let ghost before = calls_view(calls@);
                            calls.push(call);
                            proof {
                                assert(calls_view(calls@) =~= before + seq![call@]);
                                match calls_for(keys.skip(j + 1), cs) {
                                    Ok(rest) => {
                                        assert(before + (seq![call@] + rest) =~= (before + seq![call@]) + rest);
                                    },
                                    Err(e) => {},
                                }
                            }
                        },
                    }
                },
            }
            assert(forall|t: int| j + 1 <= t < keys.len() ==> #[trigger] groups@.contains_key(keys[t])
                && pending_matches(groups@[keys[t]], cs) && groups@[keys[t]].index == keys[t]);
            j = j + 1;
        }
        proof {
            assert(keys.skip(j as int) =~= Seq::<u32>::empty());
            assert(calls_view(calls@) + Seq::<ToolCallView>::empty() =~= calls_view(calls@));
        }
        Ok(calls)
    }
}

} // verus!
