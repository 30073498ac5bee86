//! The agent's ReAct loop as a state machine: the transcript built from
//! history, and the decision after each model completion. Calling the model
//! and running tools are the caller's; the loop's state says what to do next.

use vstd::prelude::*;
use crate::text::{push_str_chars, string_of};

verus! {

/// A chat message of the conversation history.
#[derive(Debug, Clone)]
pub struct MessageEvent {
    pub source: String,
    pub content: String,
}

/// A tool call the agent made; `arguments` is the JSON text of the call.
#[derive(Debug, Clone)]
pub struct ActionEvent {
    pub source: String,
    pub tool_name: String,
    pub tool_call_id: String,
    pub arguments: String,
    pub thought: Option<String>,
}

/// The result of a tool call.
#[derive(Debug, Clone)]
pub struct ObservationEvent {
    pub source: String,
    pub tool_name: String,
    pub tool_call_id: String,
    pub content: String,
}

/// An entry of the conversation history.
#[derive(Debug, Clone)]
pub enum Event {
    Message(MessageEvent),
    Action(ActionEvent),
    Observation(ObservationEvent),
}

/// A tool call requested by the model; `fn_arguments` is JSON text.
#[derive(Debug, Clone)]
pub struct ToolCall {
    pub call_id: String,
    pub fn_name: String,
    pub fn_arguments: String,
}

/// One turn of the transcript sent to the model.
#[derive(Debug, Clone)]
pub enum ChatTurn {
    System(String),
    User(String),
    Assistant(String),
    /// An assistant turn with optional text and the tool calls it made.
    AssistantCalls { text: Option<String>, calls: Vec<ToolCall> },
    /// A tool's response to the call `call_id`.
    Tool { call_id: String, content: String },
}

fn copy_call(c: &ToolCall) -> (r: ToolCall)
    ensures
        r == *c,
{
    ToolCall { call_id: c.call_id.clone(), fn_name: c.fn_name.clone(), fn_arguments: c.fn_arguments.clone() }
}

fn copy_calls(v: &Vec<ToolCall>) -> (r: Vec<ToolCall>)
    ensures
        r@ == v@,
{
    let mut r: Vec<ToolCall> = Vec::new();
    let mut i: usize = 0;
    while i < v.len()
        invariant
            i <= v.len(),
            r@ == v@.subrange(0, i as int),
        decreases v.len() - i,
    {
        r.push(copy_call(&v[i]));
        i += 1;
        assert(r@ =~= v@.subrange(0, i as int));
    }
    assert(v@.subrange(0, v.len() as int) =~= v@);
    r
}

/// `t` is the turn that the history entry `e` becomes: a user message a
/// user turn, any other message an assistant turn, an action an assistant
/// turn carrying its thought and its one tool call, an observation the
/// tool's response to its call.
pub open spec fn turn_of(t: ChatTurn, e: Event) -> bool {
    match e {
        Event::Message(m) => if m.source@ == "user"@ { t == ChatTurn::User(m.content) } else { t == ChatTurn::Assistant(m.content) },
        Event::Action(a) => t matches ChatTurn::AssistantCalls { text, calls } && text == a.thought
            && calls@ == seq![ToolCall { call_id: a.tool_call_id, fn_name: a.tool_name, fn_arguments: a.arguments }],
        Event::Observation(o) => t == ChatTurn::Tool { call_id: o.tool_call_id, content: o.content },
    }
}

/// `ts` is the transcript of `history` under `system`: the system turn,
/// then one turn per history entry, in order.
pub open spec fn is_transcript(ts: Seq<ChatTurn>, system: String, history: Seq<Event>) -> bool {
    &&& ts.len() == history.len() + 1
    &&& ts[0] == ChatTurn::System(system)
    &&& forall|i: int| 0 <= i < history.len() ==> turn_of(#[trigger] ts[i + 1], history[i])
}

fn turn_for(e: &Event) -> (t: ChatTurn)
    ensures
        turn_of(t, *e),
{
    match e {
        Event::Message(m) => {
            if str_is(&m.source, "user") {
                ChatTurn::User(m.content.clone())
            } else {
                ChatTurn::Assistant(m.content.clone())
            }
        },
        Event::Action(a) => {
            let mut calls: Vec<ToolCall> = Vec::new();
            calls.push(ToolCall { call_id: a.tool_call_id.clone(), fn_name: a.tool_name.clone(), fn_arguments: a.arguments.clone() });
            assert(calls@ =~= seq![ToolCall { call_id: a.tool_call_id, fn_name: a.tool_name, fn_arguments: a.arguments }]);
            ChatTurn::AssistantCalls { text: a.thought.clone(), calls }
        },
        Event::Observation(o) => ChatTurn::Tool { call_id: o.tool_call_id.clone(), content: o.content.clone() },
    }
}

fn str_is(s: &String, lit: &str) -> (r: bool)
    ensures
        r == (s@ == lit@),
{
    crate::text::str_eq(s.as_str(), lit)
}

/// The system message an agent sends: the fixed prompt, a blank line, then
/// the agent's own message.
pub fn combined_system_message(prompt: &str, system_message: &str) -> (r: String)
    ensures
        r@ == prompt@ + "\n\n"@ + system_message@,
{
    let mut m: Vec<char> = Vec::new();
    push_str_chars(&mut m, prompt);
    push_str_chars(&mut m, "\n\n");
    push_str_chars(&mut m, system_message);
    string_of(&m)
}

/// Model calls allowed in one step.
pub const MAX_ITERATIONS: u32 = 10;

/// What the loop does after a completion.
#[derive(Debug, Clone)]
pub enum StepDecision {
    /// The model answered without tool calls: the step ends with this
    /// message.
    Finish(MessageEvent),
    /// Run these tool calls in order, report each with `on_tool_result`,
    /// then call the model again.
    RunTools(Vec<ToolCall>),
}

/// The state of one agent step.
#[derive(Debug, Clone)]
pub struct AgentLoop {
    messages: Vec<ChatTurn>,
    iteration: u32,
}

impl AgentLoop {
    /// The number of model calls begun so far.
    pub closed spec fn iterations(&self) -> nat {
        self.iteration as nat
    }

    /// The transcript sent to the model on its next call.
    pub closed spec fn transcript(&self) -> Seq<ChatTurn> {
        self.messages@
    }

    /// The transcript sent to the model on its next call.
    pub fn messages(&self) -> (r: &Vec<ChatTurn>)
        ensures
            r@ == self.transcript(),
    {
        &self.messages
    }

    /// The number of model calls begun so far.
    pub fn iteration(&self) -> (r: u32)
        ensures
            r as nat == self.iterations(),
    {
        self.iteration
    }

    /// A step over `history` whose system turn is `system_message`.
    pub fn new(system_message: &String, history: &Vec<Event>) -> (r: Self)
        ensures
            r.iterations() == 0,
            is_transcript(r.transcript(), *system_message, history@),
    {
        let mut messages: Vec<ChatTurn> = Vec::new();
        messages.push(ChatTurn::System(system_message.clone()));
        let mut i: usize = 0;
        while i < history.len()
            invariant
                i <= history.len(),
                messages@.len() == i + 1,
                messages@[0] == ChatTurn::System(*system_message),
                forall|k: int| 0 <= k < i ==> turn_of(#[trigger] messages@[k + 1], history@[k]),
            decreases history.len() - i,
        {
            let t = turn_for(&history[i]);
            messages.push(t);
            assert(turn_of(messages@[i + 1], history@[i as int]));
            i += 1;
        }
        AgentLoop { messages, iteration: 0 }
    }

    /// Begins a model call. Fails with `Max iterations reached` once
    /// `MAX_ITERATIONS` calls have begun, so a step calls the model at most
    /// that many times.
    pub fn begin_iteration(&mut self) -> (r: Result<(), String>)
        ensures
            final(self).transcript() == old(self).transcript(),
            old(self).iterations() < MAX_ITERATIONS ==> r is Ok && final(self).iterations() == old(self).iterations() + 1,
            old(self).iterations() >= MAX_ITERATIONS ==> (r matches Err(e) && e@ == "Max iterations reached"@)
                && final(self).iterations() == old(self).iterations(),
    {
        if self.iteration >= MAX_ITERATIONS {
            return Err(string_of(&crate::text::chars_of("Max iterations reached")));
        }
        self.iteration = self.iteration + 1;
        Ok(())
    }

    /// Decides after a completion with text `content` and `tool_calls`:
    /// without tool calls the step ends with an agent message; otherwise the
    /// assistant turn (its text, if any, and the calls) joins the transcript
    /// and the calls are to be run.
    pub fn on_completion(&mut self, content: String, tool_calls: Vec<ToolCall>) -> (r: StepDecision)
        ensures
            final(self).iterations() == old(self).iterations(),
            tool_calls@.len() == 0 ==> final(self).transcript() == old(self).transcript()
                && (r matches StepDecision::Finish(m) && m.source@ == "agent"@ && m.content == content),
            tool_calls@.len() > 0 ==> (r matches StepDecision::RunTools(calls) && calls@ == tool_calls@)
                && final(self).transcript() == old(self).transcript().push(ChatTurn::AssistantCalls {
                    text: if content@.len() == 0 { None } else { Some(content) },
                    calls: tool_calls,
                }),
    {
        if tool_calls.len() == 0 {
            return StepDecision::Finish(MessageEvent { source: string_of(&crate::text::chars_of("agent")), content });
        }
        let calls = copy_calls(&tool_calls);
        let text = if content.as_str().is_empty() { None } else { Some(content) };
        self.messages.push(ChatTurn::AssistantCalls { text, calls: tool_calls });
        StepDecision::RunTools(calls)
    }

    /// Records the result of the tool call `call_id`: its output, or its
    /// failure as `Error: <message>`.
    pub fn on_tool_result(&mut self, call_id: String, result: Result<String, String>)
        ensures
            final(self).iterations() == old(self).iterations(),
            final(self).transcript().len() == old(self).transcript().len() + 1,
            final(self).transcript().subrange(0, old(self).transcript().len() as int) == old(self).transcript(),
            final(self).transcript().last() matches ChatTurn::Tool { call_id: c, content } && c == call_id
                && content@ == match result { Ok(s) => s@, Err(e) => "Error: "@ + e@ },
    {
        let content = match result {
            Ok(s) => s,
            Err(e) => {
                let mut m: Vec<char> = Vec::new();
                push_str_chars(&mut m, "Error: ");
                push_str_chars(&mut m, e.as_str());
                string_of(&m)
            },
        };
        self.messages.push(ChatTurn::Tool { call_id, content });
        assert(self.messages@.subrange(0, old(self).transcript().len() as int) =~= old(self).transcript());
    }
}

} // verus!
