//! The decisions of the agent runners: what each item of a model's stream
//! becomes for the user interface, when a run ends, and what a side
//! question sees of the conversation.

use vstd::prelude::*;

use crate::strmap::{keys_unique, map_insert, map_take, to_map};
use crate::text::{chars_of, join_seq, join_strings, push_str, views};

verus! {

/// An item of the model's response stream, as the runners read it. Tool
/// arguments are their JSON text; a tool result is the list of its parts,
/// the text ones with their text.
#[derive(Debug, Clone)]
pub enum StreamItem {
    Text(String),
    Reasoning(String),
    /// A tool call, with the id that its result will carry.
    ToolCall { call_id: String, name: String, args: String },
    /// A tool result, with the id of the call it answers.
    ToolResult { call_id: String, parts: Vec<Option<String>> },
    FinalResponse { response: String, input_tokens: u64, output_tokens: u64 },
    Failed(String),
    Other,
    /// The stream ran out.
    End,
}

/// An event for the user interface.
#[derive(Debug, Clone)]
pub enum RunnerEvent {
    Token(String),
    Reasoning(String),
    ToolCall { call_id: String, name: String, args: String },
    /// A tool result, under the name of the call its id announced.
    ToolResult { call_id: String, name: String, output: String },
    Done { response: String, input_tokens: u64, output_tokens: u64 },
    Error(String),
}

/// How a run goes on after an item.
#[derive(Debug, Clone, Copy, PartialEq, Eq, Structural)]
pub enum Control {
    /// Read the next item.
    Continue,
    /// Start a new stream that asks the model to continue.
    Restart,
    /// The run is over.
    Stop,
}

/// What a runner does with one item: the event it sends, whether the item
/// joins the tool interactions replayed on a restart, and how it goes on.
#[derive(Debug, Clone)]
pub struct RunnerStep {
    pub event: Option<RunnerEvent>,
    pub record: bool,
    pub control: Control,
}

/// The text of a tool result: its text parts, each after the first that
/// follows some text put on a new line.
pub open spec fn tool_output(parts: Seq<Option<String>>) -> Seq<char>
    decreases parts.len(),
{
    if parts.len() == 0 {
        Seq::empty()
    } else {
        let o = tool_output(parts.drop_last());
        match parts.last() {
            Some(t) => if o.len() > 0 {
                o + "\n"@ + t@
            } else {
                o + t@
            },
            None => o,
        }
    }
}

/// Gathers the text parts of a tool result.
pub fn tool_output_exec(parts: &[Option<String>]) -> (r: String)
    ensures
        r@ == tool_output(parts@),
{
    let mut out = String::new();
    let mut n: usize = 0;
    let mut i: usize = 0;
    while i < parts.len()
        invariant
            0 <= i <= parts@.len(),
            out@ == tool_output(parts@.take(i as int)),
            n == out@.len(),
        decreases parts@.len() - i,
    {
        proof {
            assert(parts@.take(i + 1).drop_last() =~= parts@.take(i as int));
        }
        match &parts[i] {
            Some(t) => {
                if n > 0 {
                    push_str(&mut out, "\n");
                }
                push_str(&mut out, t.as_str());
                n = chars_of(out.as_str()).len();
            },
            None => {},
        }
        i = i + 1;
    }
    proof {
        assert(parts@.take(parts@.len() as int) =~= parts@);
    }
    out
}

/// The main agent's run: the tools called and not yet answered, by call
/// id. A result is reported under the name of the call its id announced,
/// never under the most recent call.
pub struct AgentRun {
    pub pending: Vec<(String, String)>,
}

/// Whether an event ends the run.
pub open spec fn is_terminal(e: RunnerEvent) -> bool {
    e is Done || e is Error
}

impl AgentRun {
    /// The pending calls, by id.
    pub open spec fn pending_map(&self) -> Map<Seq<char>, String> {
        to_map(self.pending@)
    }

    /// Whether the pending calls have distinct ids.
    pub open spec fn wf(&self) -> bool {
        keys_unique(self.pending@)
    }

    /// A run that has called no tool.
    pub fn new() -> (r: Self)
        ensures
            r.wf(),
            r.pending_map() == Map::<Seq<char>, String>::empty(),
    {
        let r = AgentRun { pending: Vec::new() };
        assert(r.pending_map() =~= Map::<Seq<char>, String>::empty());
        r
    }

    /// Handles one stream item. Text and reasoning are passed on; a tool
    /// call is passed on and remembered under its id; a tool result is
    /// passed on, with its text parts, under the name of the call its id
    /// announced (empty when no pending call has that id), and that call is
    /// forgotten; both join the replayed interactions. A final response ends
    /// the run when it has text, and otherwise, like the end of the stream,
    /// starts a new stream; a failure ends the run with an error.
    pub fn step(&mut self, item: StreamItem) -> (r: RunnerStep)
        requires
            old(self).wf(),
        ensures
            final(self).wf(),
            r.event matches Some(e) ==> (is_terminal(e) <==> r.control == Control::Stop),
            r.control == Control::Stop ==> r.event is Some,
            match item {
                StreamItem::Text(t) => r.event matches Some(RunnerEvent::Token(x)) && x@ == t@
                    && !r.record && r.control == Control::Continue
                    && final(self).pending_map() == old(self).pending_map(),
                StreamItem::Reasoning(t) => r.event matches Some(RunnerEvent::Reasoning(x)) && x@
                    == t@ && !r.record && r.control == Control::Continue
                    && final(self).pending_map() == old(self).pending_map(),
                StreamItem::ToolCall { call_id, name, args } => {
                    &&& r.event matches Some(RunnerEvent::ToolCall { call_id: c, name: n, args: a })
                        && c@ == call_id@ && n@ == name@ && a@ == args@
                    &&& r.record && r.control == Control::Continue
                    &&& final(self).pending_map() == old(self).pending_map().insert(call_id@, name)
                },
                StreamItem::ToolResult { call_id, parts } => {
                    &&& r.event matches Some(RunnerEvent::ToolResult { call_id: c, name: n, output })
                        && c@ == call_id@ && n@ == (if old(self).pending_map().contains_key(call_id@) {
                        old(self).pending_map()[call_id@]@
                    } else {
                        Seq::empty()
                    }) && output@ == tool_output(parts@)
                    &&& r.record && r.control == Control::Continue
                    &&& final(self).pending_map() == old(self).pending_map().remove(call_id@)
                },
                StreamItem::FinalResponse { response, input_tokens, output_tokens } => (if response@.len()
                    > 0 {
                    r.event matches Some(RunnerEvent::Done { response: x, input_tokens: i, output_tokens: o })
                        && x@ == response@ && i == input_tokens && o == output_tokens && !r.record
                        && r.control == Control::Stop
                } else {
                    r.event is None && !r.record && r.control == Control::Restart
                }) && final(self).pending_map() == old(self).pending_map(),
                StreamItem::Failed(e) => r.event matches Some(RunnerEvent::Error(x)) && x@ == e@
                    && !r.record && r.control == Control::Stop
                    && final(self).pending_map() == old(self).pending_map(),
                StreamItem::Other => r.event is None && !r.record && r.control == Control::Continue
                    && final(self).pending_map() == old(self).pending_map(),
                StreamItem::End => r.event is None && !r.record && r.control == Control::Restart
                    && final(self).pending_map() == old(self).pending_map(),
            },
    {
        match item {
            StreamItem::Text(t) => RunnerStep {
                event: Some(RunnerEvent::Token(t)),
                record: false,
                control: Control::Continue,
            },
            StreamItem::Reasoning(t) => RunnerStep {
                event: Some(RunnerEvent::Reasoning(t)),
                record: false,
                control: Control::Continue,
            },
            StreamItem::ToolCall { call_id, name, args } => {
                map_insert(&mut self.pending, call_id.clone(), name.clone());
                RunnerStep {
                    event: Some(RunnerEvent::ToolCall { call_id, name, args }),
                    record: true,
                    control: Control::Continue,
                }
            },
            StreamItem::ToolResult { call_id, parts } => {
                let name = match map_take(&mut self.pending, call_id.as_str()) {
                    Some(l) => l,
                    None => String::new(),
                };
                let output = tool_output_exec(parts.as_slice());
                RunnerStep {
                    event: Some(RunnerEvent::ToolResult { call_id, name, output }),
                    record: true,
                    control: Control::Continue,
                }
            },
            StreamItem::FinalResponse { response, input_tokens, output_tokens } => {
                if chars_of(response.as_str()).len() > 0 {
                    RunnerStep {
                        event: Some(RunnerEvent::Done { response, input_tokens, output_tokens }),
                        record: false,
                        control: Control::Stop,
                    }
                } else {
                    RunnerStep { event: None, record: false, control: Control::Restart }
                }
            },
            StreamItem::Failed(e) => RunnerStep {
                event: Some(RunnerEvent::Error(e)),
                record: false,
                control: Control::Stop,
            },
            StreamItem::Other => RunnerStep { event: None, record: false, control: Control::Continue },
            StreamItem::End => RunnerStep { event: None, record: false, control: Control::Restart },
        }
    }
}

/// An interface event as plain values.
pub enum SpecEvent {
    Token(Seq<char>),
    Reasoning(Seq<char>),
    ToolCall { call_id: Seq<char>, name: Seq<char>, args: Seq<char> },
    ToolResult { call_id: Seq<char>, name: Seq<char>, output: Seq<char> },
    Done { response: Seq<char>, input_tokens: u64, output_tokens: u64 },
    Error(Seq<char>),
}

/// The plain values of an interface event.
pub open spec fn event_view(e: RunnerEvent) -> SpecEvent {
    match e {
        RunnerEvent::Token(t) => SpecEvent::Token(t@),
        RunnerEvent::Reasoning(t) => SpecEvent::Reasoning(t@),
        RunnerEvent::ToolCall { call_id, name, args } => SpecEvent::ToolCall {
            call_id: call_id@,
            name: name@,
            args: args@,
        },
        RunnerEvent::ToolResult { call_id, name, output } => SpecEvent::ToolResult {
            call_id: call_id@,
            name: name@,
            output: output@,
        },
        RunnerEvent::Done { response, input_tokens, output_tokens } => SpecEvent::Done {
            response: response@,
            input_tokens,
            output_tokens,
        },
        RunnerEvent::Error(x) => SpecEvent::Error(x@),
    }
}

/// The event an item sends, given the pending calls: text and reasoning as
/// they are, a call as it is, a result under the name its id announced, a
/// final response with text as `Done`, a failure as `Error`; nothing
/// otherwise.
pub open spec fn item_event(pending: Map<Seq<char>, String>, item: StreamItem) -> Option<SpecEvent> {
    match item {
        StreamItem::Text(t) => Some(SpecEvent::Token(t@)),
        StreamItem::Reasoning(t) => Some(SpecEvent::Reasoning(t@)),
        StreamItem::ToolCall { call_id, name, args } => Some(
            SpecEvent::ToolCall { call_id: call_id@, name: name@, args: args@ },
        ),
        StreamItem::ToolResult { call_id, parts } => Some(
            SpecEvent::ToolResult {
                call_id: call_id@,
                name: if pending.contains_key(call_id@) {
                    pending[call_id@]@
                } else {
                    Seq::empty()
                },
                output: tool_output(parts@),
            },
        ),
        StreamItem::FinalResponse { response, input_tokens, output_tokens } => if response@.len() > 0 {
            Some(SpecEvent::Done { response: response@, input_tokens, output_tokens })
        } else {
            None
        },
        StreamItem::Failed(x) => Some(SpecEvent::Error(x@)),
        StreamItem::Other => None,
        StreamItem::End => None,
    }
}

/// The pending calls after an item.
pub open spec fn next_pending(pending: Map<Seq<char>, String>, item: StreamItem) -> Map<Seq<char>, String> {
    match item {
        StreamItem::ToolCall { call_id, name, .. } => pending.insert(call_id@, name),
        StreamItem::ToolResult { call_id, .. } => pending.remove(call_id@),
        _ => pending,
    }
}

/// The pending calls after the first `k` items, from `start`.
pub open spec fn pass_pending(start: Map<Seq<char>, String>, items: Seq<StreamItem>, k: int) -> Map<
    Seq<char>,
    String,
>
    decreases k,
{
    if k <= 0 || k > items.len() {
        start
    } else {
        next_pending(pass_pending(start, items, k - 1), items[k - 1])
    }
}

/// The events the first `k` items send, from the pending calls `start`.
pub open spec fn pass_events(start: Map<Seq<char>, String>, items: Seq<StreamItem>, k: int) -> Seq<
    SpecEvent,
>
    decreases k,
{
    if k <= 0 || k > items.len() {
        Seq::empty()
    } else {
        let before = pass_events(start, items, k - 1);
        match item_event(pass_pending(start, items, k - 1), items[k - 1]) {
            Some(e) => before.push(e),
            None => before,
        }
    }
}

/// Whether an item ends a pass over the stream: a final response (which
/// ends the run or starts a new stream), a failure, or the stream running
/// out.
pub open spec fn ends_pass(item: StreamItem) -> bool {
    item is FinalResponse || item is Failed || item is End
}

/// The positions, below `k`, of the items that join the replayed tool
/// interactions: the tool calls and tool results.
pub open spec fn recorded_positions(items: Seq<StreamItem>, k: int) -> Seq<usize>
    decreases k,
{
    if k <= 0 || k > items.len() {
        seq![]
    } else if items[k - 1] is ToolCall || items[k - 1] is ToolResult {
        recorded_positions(items, k - 1).push((k - 1) as usize)
    } else {
        recorded_positions(items, k - 1)
    }
}

/// How a run goes on after an item: a final response with text, or a
/// failure, stops it; a final response without text, or the end of the
/// stream, asks for a new stream; anything else goes on.
pub open spec fn item_control(item: StreamItem) -> Control {
    match item {
        StreamItem::FinalResponse { response, .. } => if response@.len() > 0 {
            Control::Stop
        } else {
            Control::Restart
        },
        StreamItem::Failed(_) => Control::Stop,
        StreamItem::End => Control::Restart,
        _ => Control::Continue,
    }
}

/// The position of the first item from `i` that ends a pass, or the
/// length when none does.
pub open spec fn first_end(items: Seq<StreamItem>, i: int) -> int
    decreases items.len() - i,
{
    if i < 0 || i >= items.len() {
        items.len() as int
    } else if ends_pass(items[i]) {
        i
    } else {
        first_end(items, i + 1)
    }
}

/// How many items a pass reads: up to and including the first that ends
/// it, or all of them.
pub open spec fn pass_len(items: Seq<StreamItem>) -> int {
    if first_end(items, 0) < items.len() {
        first_end(items, 0) + 1
    } else {
        items.len() as int
    }
}

/// How a run goes on after a pass: as the item that ended it says, or on
/// when none did.
pub open spec fn pass_control(items: Seq<StreamItem>) -> Control {
    if first_end(items, 0) < items.len() {
        item_control(items[first_end(items, 0)])
    } else {
        Control::Continue
    }
}

/// Skipping items that do not end a pass does not move the first that does.
proof fn lemma_first_end_skip(items: Seq<StreamItem>, k: int)
    requires
        0 <= k <= items.len(),
        forall|j: int| 0 <= j < k ==> !ends_pass(#[trigger] items[j]),
    ensures
        first_end(items, 0) == first_end(items, k),
    decreases k,
{
    if k > 0 {
        lemma_first_end_skip(items, k - 1);
    }
}

/// What one pass of the main agent over a stream produced: the events sent,
/// in order, the positions of the items replayed on a restart, how many
/// items were read, and how the run goes on.
pub struct PassOutcome {
    pub events: Vec<RunnerEvent>,
    pub recorded: Vec<usize>,
    pub consumed: usize,
    pub control: Control,
}

impl AgentRun {
    /// Reads stream items in order, handling each as [`AgentRun::step`]
    /// does, until one ends the pass or the items run out. No event follows
    /// a `Done` or an `Error`; the run stops exactly when the last event is
    /// one of them; a `Done` always carries a non-empty response; a failure
    /// gives exactly one `Error` and ends the run; and a pass that reaches a
    /// final response without text, or the end of the stream, asks for a
    /// new stream rather than ending silently.
    pub fn run_pass(&mut self, items: Vec<StreamItem>) -> (r: PassOutcome)
        requires
            old(self).wf(),
        ensures
            final(self).wf(),
            r.events@.map_values(|e: RunnerEvent| event_view(e)) == pass_events(
                old(self).pending_map(),
                items@,
                r.consumed as int,
            ),
            final(self).pending_map() == pass_pending(old(self).pending_map(), items@, r.consumed as int),
            r.consumed <= items@.len(),
            r.control == Control::Continue ==> r.consumed == items@.len(),
            r.control != Control::Continue ==> r.consumed > 0 && ends_pass(items@[r.consumed - 1]),
            forall|i: int|
                0 <= i < r.consumed && (r.control == Control::Continue || i < r.consumed - 1)
                    ==> !ends_pass(#[trigger] items@[i]),
            forall|i: int| 0 <= i < r.events@.len() - 1 ==> !is_terminal(#[trigger] r.events@[i]),
            r.control == Control::Stop <==> (r.events@.len() > 0 && is_terminal(r.events@.last())),
            r.control == Control::Stop ==> (items@[r.consumed - 1] is Failed <==> r.events@.last() is Error),
            forall|i: int|
                0 <= i < r.events@.len() ==> (#[trigger] r.events@[i] matches RunnerEvent::Done {
                    response,
                    ..
                } ==> response@.len() > 0),
            r.recorded@ == recorded_positions(items@, r.consumed as int),
            r.consumed == pass_len(items@),
            r.control == pass_control(items@),
    {
        let ghost orig = items@;
        let ghost start = self.pending_map();
        let n = items.len();
        let mut items = items;
        let mut events: Vec<RunnerEvent> = Vec::new();
        let mut recorded: Vec<usize> = Vec::new();
        let mut consumed: usize = 0;
        let mut control = Control::Continue;
        while consumed < n && control == Control::Continue
            invariant
                self.wf(),
                n == orig.len(),
                events@.map_values(|e: RunnerEvent| event_view(e)) == pass_events(start, orig, consumed as int),
                self.pending_map() == pass_pending(start, orig, consumed as int),
                consumed <= n,
                items@ == orig.subrange(consumed as int, n as int),
                control != Control::Continue ==> consumed > 0 && ends_pass(orig[consumed - 1]),
                forall|i: int|
                    0 <= i < consumed && (control == Control::Continue || i < consumed - 1)
                        ==> !ends_pass(#[trigger] orig[i]),
                forall|i: int|
                    0 <= i < events@.len() && (control != Control::Stop || i < events@.len() - 1)
                        ==> !is_terminal(#[trigger] events@[i]),
                control == Control::Stop ==> events@.len() > 0 && is_terminal(events@.last()),
                control == Control::Stop ==> (orig[consumed - 1] is Failed <==> events@.last() is Error),
                forall|i: int|
                    0 <= i < events@.len() ==> (#[trigger] events@[i] matches RunnerEvent::Done {
                        response,
                        ..
                    } ==> response@.len() > 0),
                recorded@ == recorded_positions(orig, consumed as int),
                control != Control::Continue ==> control == item_control(orig[consumed - 1]),
            decreases n - consumed,
        {
            let item = items.remove(0);
            assert(item == orig[consumed as int]);
            let ghost it = item;
            let ghost before = events@;
            let ghost pend = self.pending_map();
            let st = self.step(item);
            if st.record {
                recorded.push(consumed);
            }
            match st.event {
                Some(e) => {
                    events.push(e);
                },
                None => {},
            }
            proof {
                match item_event(pend, it) {
                    Some(e) => {
                        assert(events@ == before.push(events@.last()));
                        assert(event_view(events@.last()) == e);
                        assert(events@.map_values(|e: RunnerEvent| event_view(e)) =~= before.map_values(
                            |e: RunnerEvent| event_view(e),
                        ).push(e));
                    },
                    None => {
                        assert(events@ == before);
                    },
                }
            }
            assert(st.control == item_control(it));
            control = st.control;
            consumed = consumed + 1;
            assert(items@ =~= orig.subrange(consumed as int, n as int));
        }
        proof {
            if control == Control::Continue {
                lemma_first_end_skip(orig, n as int);
            } else {
                lemma_first_end_skip(orig, consumed - 1);
            }
        }
        PassOutcome { events, recorded, consumed, control }
    }
}

/// The prompt that asks the model to go on after a pass that ended without
/// a response.
pub open spec fn continue_prompt_text() -> Seq<char> {
    "Please continue."@
}

/// The prompt that asks the model to go on.
pub fn continue_prompt() -> (r: &'static str)
    ensures
        r@ == continue_prompt_text(),
{
    "Please continue."
}

/// The pending calls after the first `k` streams, each read as a pass.
pub open spec fn agent_pending(streams: Seq<Vec<StreamItem>>, k: int) -> Map<Seq<char>, String>
    decreases k,
{
    if k <= 0 || k > streams.len() {
        Map::empty()
    } else {
        pass_pending(agent_pending(streams, k - 1), streams[k - 1]@, pass_len(streams[k - 1]@))
    }
}

/// The events the first `k` streams send, each read as a pass, in order.
pub open spec fn agent_events(streams: Seq<Vec<StreamItem>>, k: int) -> Seq<SpecEvent>
    decreases k,
{
    if k <= 0 || k > streams.len() {
        Seq::empty()
    } else {
        agent_events(streams, k - 1) + pass_events(
            agent_pending(streams, k - 1),
            streams[k - 1]@,
            pass_len(streams[k - 1]@),
        )
    }
}

/// What the main agent's task sent over its streams: the events, how many
/// streams it read, and whether it ended.
pub struct AgentOutcome {
    pub events: Vec<RunnerEvent>,
    pub passes: usize,
    pub ended: bool,
}

/// The main agent's task over its streams in order: the first answers the
/// prompt, each later one answers [`continue_prompt`] after a stream that
/// gave no response. Across all of them no event follows a `Done` or an
/// `Error`; the task ends exactly when its last event is one of them; a
/// `Done` always carries a non-empty response; and a task that has not
/// ended has read every stream it was given, asking for another after each.
pub fn run_agent(streams: Vec<Vec<StreamItem>>) -> (r: AgentOutcome)
    ensures
        r.events@.map_values(|e: RunnerEvent| event_view(e)) == agent_events(streams@, r.passes as int),
        forall|j: int| 0 <= j < r.passes - 1 ==> pass_control(#[trigger] streams@[j]@) != Control::Stop,
        r.ended <==> (r.passes > 0 && pass_control(streams@[r.passes - 1]@) == Control::Stop),
        r.passes <= streams@.len(),
        forall|i: int| 0 <= i < r.events@.len() - 1 ==> !is_terminal(#[trigger] r.events@[i]),
        r.ended <==> (r.events@.len() > 0 && is_terminal(r.events@.last())),
        !r.ended ==> r.passes == streams@.len(),
        r.ended ==> r.passes > 0,
        forall|i: int|
            0 <= i < r.events@.len() ==> (#[trigger] r.events@[i] matches RunnerEvent::Done {
                response,
                ..
            } ==> response@.len() > 0),
{
    let ghost orig = streams@;
    let n = streams.len();
    let mut rest = streams;
    let mut run = AgentRun::new();
    let mut events: Vec<RunnerEvent> = Vec::new();
    let mut passes: usize = 0;
    let mut ended = false;
    while passes < n && !ended
        invariant
            run.wf(),
            passes <= n,
            orig == streams@,
            rest@ == orig.subrange(passes as int, n as int),
            n == streams@.len(),
            run.pending_map() == agent_pending(orig, passes as int),
            events@.map_values(|e: RunnerEvent| event_view(e)) == agent_events(orig, passes as int),
            forall|j: int| 0 <= j < passes - 1 ==> pass_control(#[trigger] orig[j]@) != Control::Stop,
            ended <==> (passes > 0 && pass_control(orig[passes - 1]@) == Control::Stop),
            forall|i: int|
                0 <= i < events@.len() && (!ended || i < events@.len() - 1) ==> !is_terminal(
                    #[trigger] events@[i],
                ),
            ended <==> (events@.len() > 0 && is_terminal(events@.last())),
            ended ==> passes > 0,
            forall|i: int|
                0 <= i < events@.len() ==> (#[trigger] events@[i] matches RunnerEvent::Done {
                    response,
                    ..
                } ==> response@.len() > 0),
        decreases n - passes,
    {
        let items = rest.remove(0);
        assert(items == orig[passes as int]);
        let ghost was_ended = ended;
        let mut out = run.run_pass(items);
        let ghost before = events@;
        let ghost added = out.events@;
        events.append(&mut out.events);
        assert(events@ == before + added);
        assert(events@.map_values(|e: RunnerEvent| event_view(e)) =~= before.map_values(
            |e: RunnerEvent| event_view(e),
        ) + added.map_values(|e: RunnerEvent| event_view(e)));
        assert(forall|i: int| 0 <= i < added.len() ==> #[trigger] events@[before.len() + i] == added[i]);
        ended = out.control == Control::Stop;
        passes = passes + 1;
        assert(rest@ =~= orig.subrange(passes as int, n as int));
        if !ended {
            assert(added.len() == 0 || !is_terminal(added.last()));
            assert(events@.len() == 0 || !is_terminal(events@.last())) by {
                if added.len() == 0 {
                    assert(events@ =~= before);
                } else {
                    assert(events@.last() == added.last());
                }
            }
        } else {
            assert(events@.last() == added.last());
        }
    }
    AgentOutcome { events, passes, ended }
}

/// How a side question ends.
#[derive(Debug, Clone)]
pub enum BtwOutcome {
    Done { response: String, input_tokens: u64, output_tokens: u64 },
    Error(String),
}

/// A side question's run: the text streamed so far.
pub struct BtwRun {
    pub acc: String,
}

impl BtwRun {
    /// A run with no text yet.
    pub fn new() -> (r: Self)
        ensures
            r.acc@.len() == 0,
    {
        BtwRun { acc: String::new() }
    }

    /// Handles one stream item: `None` to go on, or how the side question
    /// ends. Text accumulates; a final response answers with its own text,
    /// or with the accumulated text when it has none; a failure or the end
    /// of the stream is an error.
    pub fn step(&mut self, item: StreamItem) -> (r: Option<BtwOutcome>)
        ensures
            match item {
                StreamItem::Text(t) => r is None && final(self).acc@ == old(self).acc@ + t@,
                StreamItem::FinalResponse { response, input_tokens, output_tokens } => r matches Some(
                    BtwOutcome::Done { response: x, input_tokens: i, output_tokens: o },
                ) && x@ == (if response@.len() == 0 {
                    old(self).acc@
                } else {
                    response@
                }) && i == input_tokens && o == output_tokens,
                StreamItem::Failed(e) => r matches Some(BtwOutcome::Error(x)) && x@ == e@,
                StreamItem::End => r matches Some(BtwOutcome::Error(x)) && x@
                    == "side question ended without a response"@,
                _ => r is None && final(self).acc@ == old(self).acc@,
            },
    {
        match item {
            StreamItem::Text(t) => {
                push_str(&mut self.acc, t.as_str());
                None
            },
            StreamItem::FinalResponse { response, input_tokens, output_tokens } => {
                let response = if chars_of(response.as_str()).len() == 0 {
                    self.acc.clone()
                } else {
                    response
                };
                Some(BtwOutcome::Done { response, input_tokens, output_tokens })
            },
            StreamItem::Failed(e) => Some(BtwOutcome::Error(e)),
            StreamItem::End => Some(
                BtwOutcome::Error(String::from_str("side question ended without a response")),
            ),
            _ => None,
        }
    }
}

/// The streamed text among the first `k` items.
pub open spec fn streamed_text(items: Seq<StreamItem>, k: int) -> Seq<char>
    decreases k,
{
    if k <= 0 || k > items.len() {
        Seq::empty()
    } else {
        streamed_text(items, k - 1) + match items[k - 1] {
            StreamItem::Text(t) => t@,
            _ => Seq::empty(),
        }
    }
}

/// Whether an item ends a side question: a final response, a failure or
/// the end of the stream.
pub open spec fn ends_btw(item: StreamItem) -> bool {
    item is FinalResponse || item is Failed || item is End
}

/// How a side question ends at the item that ends it, after `text` was
/// streamed.
pub open spec fn btw_outcome(item: StreamItem, text: Seq<char>) -> (Seq<char>, bool, u64, u64) {
    match item {
        StreamItem::FinalResponse { response, input_tokens, output_tokens } => (
            if response@.len() == 0 {
                text
            } else {
                response@
            },
            true,
            input_tokens,
            output_tokens,
        ),
        StreamItem::Failed(e) => (e@, false, 0, 0),
        _ => ("side question ended without a response"@, false, 0, 0),
    }
}

/// The plain values of an outcome: its text, whether it is `Done`, and the
/// token counts of a `Done`.
pub open spec fn outcome_view(o: BtwOutcome) -> (Seq<char>, bool, u64, u64) {
    match o {
        BtwOutcome::Done { response, input_tokens, output_tokens } => (
            response@,
            true,
            input_tokens,
            output_tokens,
        ),
        BtwOutcome::Error(m) => (m@, false, 0, 0),
    }
}

/// A side question over its stream, the items in order until the stream
/// ends: it reads up to the first item that ends it and sends exactly one
/// outcome, that item's; a stream that runs out first ends as the end of
/// the stream does. Returns the outcome and how many items were read.
pub fn run_btw(items: Vec<StreamItem>) -> (r: (BtwOutcome, usize))
    ensures
        r.1 <= items@.len(),
        forall|i: int| 0 <= i < r.1 - 1 ==> !ends_btw(#[trigger] items@[i]),
        if r.1 > 0 && ends_btw(items@[r.1 - 1]) {
            outcome_view(r.0) == btw_outcome(items@[r.1 - 1], streamed_text(items@, r.1 - 1))
        } else {
            r.1 == items@.len() && outcome_view(r.0) == btw_outcome(StreamItem::End, Seq::empty())
        },
{
    let ghost orig = items@;
    let n = items.len();
    let mut rest = items;
    let mut run = BtwRun::new();
    let mut consumed: usize = 0;
    while consumed < n
        invariant
            n == orig.len(),
            consumed <= n,
            rest@ == orig.subrange(consumed as int, n as int),
            orig == items@,
            run.acc@ == streamed_text(orig, consumed as int),
            forall|i: int| 0 <= i < consumed ==> !ends_btw(#[trigger] orig[i]),
        decreases n - consumed,
    {
        let item = rest.remove(0);
        assert(item == orig[consumed as int]);
        let ghost it = item;
        let ghost acc = run.acc@;
        let out = run.step(item);
        consumed = consumed + 1;
        assert(rest@ =~= orig.subrange(consumed as int, n as int));
        match out {
            Some(o) => {
                assert(ends_btw(it));
                return (o, consumed);
            },
            None => {
                assert(!ends_btw(it));
            },
        }
    }
    let msg = String::from_str("side question ended without a response");
    (BtwOutcome::Error(msg), consumed)
}

/// What a silent subagent run does with an item.
#[derive(Debug, Clone)]
pub enum SubagentStep {
    /// Go on.
    Continue,
    /// Report the tool call (when someone listens) and go on.
    ToolCall { name: String, args: String },
    /// The run is over.
    Finish,
    /// The run failed with this message.
    Fail(String),
}

/// A subagent's run: its response text so far.
pub struct SubagentRun {
    pub full_response: String,
}

impl SubagentRun {
    /// A run with no response yet.
    pub fn new() -> (r: Self)
        ensures
            r.full_response@.len() == 0,
    {
        SubagentRun { full_response: String::new() }
    }

    /// Handles one stream item: text accumulates; a tool call is reported;
    /// a final response replaces the text and ends the run, as does the end
    /// of the stream; a failure fails it.
    pub fn step(&mut self, item: StreamItem) -> (r: SubagentStep)
        ensures
            match item {
                StreamItem::Text(t) => r is Continue && final(self).full_response@
                    == old(self).full_response@ + t@,
                StreamItem::ToolCall { name, args, .. } => r matches SubagentStep::ToolCall {
                    name: n,
                    args: a,
                } && n@ == name@ && a@ == args@ && final(self).full_response@
                    == old(self).full_response@,
                StreamItem::FinalResponse { response, .. } => r is Finish
                    && final(self).full_response@ == response@,
                StreamItem::Failed(e) => r matches SubagentStep::Fail(m) && m@ == "subagent error: "@
                    + e@,
                StreamItem::End => r is Finish && final(self).full_response@
                    == old(self).full_response@,
                _ => r is Continue && final(self).full_response@ == old(self).full_response@,
            },
    {
        match item {
            StreamItem::Text(t) => {
                push_str(&mut self.full_response, t.as_str());
                SubagentStep::Continue
            },
            StreamItem::ToolCall { name, args, .. } => SubagentStep::ToolCall { name, args },
            StreamItem::FinalResponse { response, .. } => {
                self.full_response = response;
                SubagentStep::Finish
            },
            StreamItem::Failed(e) => {
                let mut m = String::from_str("subagent error: ");
                push_str(&mut m, e.as_str());
                SubagentStep::Fail(m)
            },
            StreamItem::End => SubagentStep::Finish,
            _ => SubagentStep::Continue,
        }
    }

    /// The result of a finished run: its response, or an error when it is
    /// empty.
    pub fn finish(self) -> (r: Result<String, String>)
        ensures
            match r {
                Ok(s) => s@ == self.full_response@ && s@.len() > 0,
                Err(m) => self.full_response@.len() == 0 && m@ == "subagent returned empty response"@,
            },
    {
        if chars_of(self.full_response.as_str()).len() == 0 {
            Err(String::from_str("subagent returned empty response"))
        } else {
            Ok(self.full_response)
        }
    }
}

/// What a printing run does with an item.
#[derive(Debug, Clone)]
pub enum PrintStep {
    /// Go on.
    Continue,
    /// Print this to standard output and go on.
    Out(String),
    /// Print this to standard error and go on.
    ErrOut(String),
    /// The run is over.
    Finish,
    /// Print this line to standard error; the run is over.
    Fail(String),
}

/// A printing run: the response text so far.
pub struct PrintRun {
    pub full_response: String,
}

impl PrintRun {
    /// A run with no response yet.
    pub fn new() -> (r: Self)
        ensures
            r.full_response@.len() == 0,
    {
        PrintRun { full_response: String::new() }
    }

    /// Handles one stream item: text is kept and printed, reasoning printed
    /// to standard error, a final response or the end of the stream ends the
    /// run, a failure is reported and ends it.
    pub fn step(&mut self, item: StreamItem) -> (r: PrintStep)
        ensures
            match item {
                StreamItem::Text(t) => r matches PrintStep::Out(x) && x@ == t@
                    && final(self).full_response@ == old(self).full_response@ + t@,
                StreamItem::Reasoning(t) => r matches PrintStep::ErrOut(x) && x@ == t@
                    && final(self).full_response@ == old(self).full_response@,
                StreamItem::FinalResponse { .. } => r is Finish && final(self).full_response@
                    == old(self).full_response@,
                StreamItem::End => r is Finish && final(self).full_response@
                    == old(self).full_response@,
                StreamItem::Failed(e) => r matches PrintStep::Fail(x) && x@ == "Error: "@ + e@
                    && final(self).full_response@ == old(self).full_response@,
                _ => r is Continue && final(self).full_response@ == old(self).full_response@,
            },
    {
        match item {
            StreamItem::Text(t) => {
                push_str(&mut self.full_response, t.as_str());
                PrintStep::Out(t)
            },
            StreamItem::Reasoning(t) => PrintStep::ErrOut(t),
            StreamItem::FinalResponse { .. } => PrintStep::Finish,
            StreamItem::End => PrintStep::Finish,
            StreamItem::Failed(e) => {
                let mut m = String::from_str("Error: ");
                push_str(&mut m, e.as_str());
                PrintStep::Fail(m)
            },
            _ => PrintStep::Continue,
        }
    }
}

/// Who a conversation message is from.
#[derive(Debug, Clone, Copy, PartialEq, Eq, Structural)]
pub enum Role {
    User,
    Assistant,
    System,
}

/// The history handed to the model: the summary of the compacted part, if
/// any, as a system message, then the messages from `first_kept` on.
pub open spec fn spec_history(
    summary: Option<Seq<char>>,
    messages: Seq<(Role, Seq<char>)>,
    first_kept: int,
) -> Seq<(Role, Seq<char>)> {
    let head = match summary {
        Some(s) => seq![(Role::System, "[Previous conversation summary]\n"@ + s)],
        None => Seq::empty(),
    };
    head + messages.skip(first_kept)
}

/// Messages as pairs of role and text.
pub open spec fn message_views(m: Seq<(Role, String)>) -> Seq<(Role, Seq<char>)> {
    m.map_values(|x: (Role, String)| (x.0, x.1@))
}

/// The history handed to the model for a session whose messages before
/// `first_kept` were compacted into `summary`.
pub fn history_messages(summary: Option<&str>, messages: &[(Role, String)], first_kept: usize) -> (r:
    Vec<(Role, String)>)
    requires
        first_kept <= messages@.len(),
    ensures
        message_views(r@) == spec_history(
            match summary {
                Some(s) => Some(s@),
                None => None,
            },
            message_views(messages@),
            first_kept as int,
        ),
{
    let mut out: Vec<(Role, String)> = Vec::new();
    match summary {
        Some(s) => {
            let mut t = String::from_str("[Previous conversation summary]\n");
            push_str(&mut t, s);
            out.push((Role::System, t));
        },
        None => {},
    }
    let ghost head = message_views(out@);
    let mut i = first_kept;
    while i < messages.len()
        invariant
            first_kept <= i <= messages@.len(),
            message_views(out@) == head + message_views(messages@).subrange(first_kept as int, i as int),
        decreases messages@.len() - i,
    {
        let ghost before = out@;
        out.push((messages[i].0, messages[i].1.clone()));
        proof {
            assert(message_views(out@) =~= message_views(before).push(message_views(messages@)[i as int]));
            assert(message_views(messages@).subrange(first_kept as int, i + 1) =~= message_views(messages@).subrange(first_kept as int, i as int).push(message_views(messages@)[i as int]));
        }
        i = i + 1;
    }
    proof {
        assert(message_views(messages@).subrange(first_kept as int, messages@.len() as int) =~= message_views(messages@).skip(first_kept as int));
    }
    out
}

/// The note a side question gets while the main agent works: what the agent
/// did so far this turn, one step per line.
pub open spec fn btw_note(trace: Seq<Seq<char>>) -> Seq<char> {
    "(Context only \u{2014} the main assistant is working in parallel right now. Its progress so far this turn:\n"@
        + join_seq(trace, "\n"@)
        + "\nThe last step may still be running. Use this only if the user's question is about what the main assistant is doing.)"@
}

/// The note for a side question, when the main agent is running and has
/// done something this turn.
pub fn btw_context_note(turn_trace: &[String], main_running: bool) -> (r: Option<String>)
    ensures
        match r {
            Some(n) => main_running && turn_trace@.len() > 0 && n@ == btw_note(views(turn_trace@)),
            None => !main_running || turn_trace@.len() == 0,
        },
{
    if main_running && turn_trace.len() > 0 {
        let mut n = String::from_str(
            "(Context only \u{2014} the main assistant is working in parallel right now. Its progress so far this turn:\n",
        );
        let j = join_strings(turn_trace, "\n");
        push_str(&mut n, j.as_str());
        push_str(
            &mut n,
            "\nThe last step may still be running. Use this only if the user's question is about what the main assistant is doing.)",
        );
        Some(n)
    } else {
        None
    }
}

} // verus!
