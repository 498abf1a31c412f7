//! The turn controller. One turn runs from a user line through streaming,
//! tool parsing and tool execution, and back to awaiting input. The
//! controller is a pure state machine: the caller performs the streaming,
//! printing and tool side effects, and hands each outcome back as an
//! event. Cancellation during streaming returns to awaiting input with
//! the thread pointer unchanged, and the tool loop of one turn is bounded
//! by the configured maximum iteration count.

use vstd::prelude::*;
use vstd::string::StringSliceAdditionalSpecFns;
use crate::text::{trim, trim_bytes, bytes_eq, push_all};
use crate::directive::{Invocation, parse_invocations, parse_invocations_spec, invocation_views};
use crate::report::{ToolResult, follow_up_prompt, fold_results};
use crate::registry::catalog_text_spec;
use crate::stream::FinalMessage;

verus! {

/// The turn controller's configuration: how many tool-execution rounds
/// one turn may run before it is forced back to input.
#[derive(Clone, Copy)]
pub struct Config {
    pub max_tool_iterations: u32,
}

/// Where the controller stands within a turn.
pub enum Phase {
    AwaitingInput,
    Streaming { iterations: u32 },
    RunningTools { iterations: u32 },
    Finished,
}

/// The controller: the thread pointer — the id of the last committed
/// assistant message — and the current phase.
pub struct Controller {
    pub thread: Option<i64>,
    pub phase: Phase,
}

/// What the caller must come back with.
pub enum TurnEvent {
    UserLine { line: Vec<u8>, context: Option<Vec<u8>> },
    EndOfInput,
    StreamEnded { msg: Option<FinalMessage> },
    ToolResults { results: Vec<ToolResult> },
}

/// What the caller must do next.
pub enum TurnAction {
    Idle,
    Quit,
    Prompt { text: Vec<u8> },
    RunTools { invocations: Vec<Invocation> },
    ShowFinal { text: Vec<u8> },
    Warn { text: Vec<u8> },
}

/// Iteration counts stay within the configured bound.
pub open spec fn controller_wf(st: Controller, cfg: Config) -> bool {
    match st.phase {
        Phase::Streaming { iterations } => iterations <= cfg.max_tool_iterations,
        Phase::RunningTools { iterations } => iterations < cfg.max_tool_iterations,
        _ => true,
    }
}

/// The controller is inside the tool-continuation loop of a turn.
pub open spec fn in_tool_loop(st: Controller) -> bool {
    st.phase is Streaming || st.phase is RunningTools
}

/// A measure that strictly falls on every tool-driving step of the loop.
pub open spec fn loop_measure(st: Controller, cfg: Config) -> int {
    match st.phase {
        Phase::Streaming { iterations } => 2 * (cfg.max_tool_iterations - iterations) + 1,
        Phase::RunningTools { iterations } => 2 * (cfg.max_tool_iterations - iterations),
        _ => 0,
    }
}

/// An event that keeps asking for tools: a completed message that parses
/// to at least one invocation, or finished tool results.
pub open spec fn drives_tools(event: TurnEvent) -> bool {
    match event {
        TurnEvent::StreamEnded { msg } => match msg {
            Some(m) => trim(m.text@).len() > 0 && parse_invocations_spec(m.text@).len() > 0,
            None => false,
        },
        TurnEvent::ToolResults { .. } => true,
        _ => false,
    }
}

/// The event answers the phase that awaits it.
pub open spec fn event_matches(st: Controller, event: TurnEvent) -> bool {
    match event {
        TurnEvent::StreamEnded { .. } => st.phase is Streaming,
        TurnEvent::ToolResults { .. } => st.phase is RunningTools,
        _ => false,
    }
}

pub open spec fn exit_command() -> Seq<u8> {
    "/exit".spec_bytes()
}

pub open spec fn user_prefix() -> Seq<u8> {
    "\n\nUser: ".spec_bytes()
}

pub open spec fn context_header() -> Seq<u8> {
    "\n\nProject context from DEEPSEEK.md:\n".spec_bytes()
}

pub open spec fn empty_warning() -> Seq<u8> {
    "WARNING: Your previous response was empty. Please provide a meaningful response or use tools as appropriate.\n\nContinue with the next step or provide the final answer.".spec_bytes()
}

pub open spec fn max_iterations_warning() -> Seq<u8> {
    "Warning: reached the maximum number of tool rounds for one turn; returning to input.".spec_bytes()
}

/// The fixed instruction text that precedes the catalog on a first turn.
pub open spec fn preamble_header() -> Seq<u8> {
    "You are an assistant that can use the following tools to interact with the current directory.\nTo use a tool, output a line starting with \"TOOL:\" followed by the tool name and its argument(s). For tools that take several pieces of data, the argument(s) may span the lines that follow.\nYou may place several tool invocations in one response; they will be executed sequentially, in order.\n\nIMPORTANT: Do NOT simulate or guess the tool results. Only output the tool invocations. After you output them, you will receive a new message with the actual results (each prefixed with \"TOOL RESULT for <tool>:\"). Continue the conversation based on those real results.\n\nWhen a question needs data from the environment or the web, gather it with the tools first, then answer. Prefer up-to-date information from search_web or fetch_url for anything that may change over time. The tool invocation must be the first thing on its own line starting with \"TOOL:\".\n\nAvailable tools:\n\n".spec_bytes()
}

pub open spec fn opt_view(o: Option<Vec<u8>>) -> Option<Seq<u8>> {
    match o {
        Some(c) => Some(c@),
        None => None,
    }
}

/// The first-turn preamble: the instruction header, the catalog, and the
/// project context when one is present.
pub open spec fn instruction_preamble(ctx: Option<Seq<u8>>) -> Seq<u8> {
    preamble_header() + catalog_text_spec() + (match ctx {
        Some(c) => context_header() + c,
        None => Seq::empty(),
    })
}

/// The outbound prompt: on the first turn (no thread pointer yet) the
/// preamble, then the user's trimmed line; later turns send it raw.
pub open spec fn outbound_prompt(
    thread: Option<i64>,
    ctx: Option<Seq<u8>>,
    trimmed: Seq<u8>,
) -> Seq<u8> {
    if thread is None {
        instruction_preamble(ctx) + user_prefix() + trimmed
    } else {
        trimmed
    }
}

/// A fresh controller, resuming at `thread` (or at nothing).
pub fn controller_start(thread: Option<i64>) -> (st: Controller)
    ensures
        st.thread == thread,
        st.phase is AwaitingInput,
{
    Controller { thread, phase: Phase::AwaitingInput }
}

/// The project context that a first turn carries: the file content when
/// its trimmed form is non-empty, nothing otherwise.
pub fn project_context_of(content: &[u8]) -> (r: Option<Vec<u8>>)
    ensures
        match r {
            Some(c) => trim(content@).len() > 0 && c@ == content@,
            None => trim(content@).len() == 0,
        },
{
    let t = trim_bytes(content);
    if t.len() == 0 {
        None
    } else {
        let mut c: Vec<u8> = Vec::new();
        push_all(&mut c, content);
        Some(c)
    }
}

/// The token held in a credential file: its trimmed content, unless that
/// is empty.
pub fn token_of_file_content(content: &[u8]) -> (r: Option<Vec<u8>>)
    ensures
        match r {
            Some(t) => t@ == trim(content@) && trim(content@).len() > 0,
            None => trim(content@).len() == 0,
        },
{
    let t = trim_bytes(content);
    if t.len() == 0 {
        None
    } else {
        Some(t)
    }
}

fn build_first_prompt(ctx: &Option<Vec<u8>>, trimmed: &[u8]) -> (r: Vec<u8>)
    ensures
        r@ == instruction_preamble(opt_view(*ctx)) + user_prefix() + trimmed@,
{
    let mut out: Vec<u8> = Vec::new();
    push_all(&mut out, "You are an assistant that can use the following tools to interact with the current directory.\nTo use a tool, output a line starting with \"TOOL:\" followed by the tool name and its argument(s). For tools that take several pieces of data, the argument(s) may span the lines that follow.\nYou may place several tool invocations in one response; they will be executed sequentially, in order.\n\nIMPORTANT: Do NOT simulate or guess the tool results. Only output the tool invocations. After you output them, you will receive a new message with the actual results (each prefixed with \"TOOL RESULT for <tool>:\"). Continue the conversation based on those real results.\n\nWhen a question needs data from the environment or the web, gather it with the tools first, then answer. Prefer up-to-date information from search_web or fetch_url for anything that may change over time. The tool invocation must be the first thing on its own line starting with \"TOOL:\".\n\nAvailable tools:\n\n".as_bytes());
    let catalog = crate::registry::catalog_text();
    push_all(&mut out, catalog.as_slice());
    match ctx {
        Some(c) => {
            push_all(&mut out, "\n\nProject context from DEEPSEEK.md:\n".as_bytes());
            push_all(&mut out, c.as_slice());
        },
        None => {},
    }
    push_all(&mut out, "\n\nUser: ".as_bytes());
    push_all(&mut out, trimmed);
    proof {
        assert(out@ =~= instruction_preamble(opt_view(*ctx)) + user_prefix() + trimmed@);
    }
    out
}

/// One step of the turn state machine. The ensures clause is the
/// machine's transition table:
/// - a user line is ignored when blank, quits on the exit command, and
///   otherwise opens a cancellable streaming call, with the instruction
///   preamble prepended on the first turn only;
/// - a cancelled or truncated stream returns to awaiting input with the
///   thread pointer unchanged — no partial message is ever committed;
/// - a completed message commits the thread pointer; an all-whitespace
///   message asks once more with a corrective prompt; a message without
///   invocations ends the turn; invocations run unless the iteration
///   budget is spent, in which case a warning forces the turn closed;
/// - finished tool results are folded into the follow-up prompt and the
///   loop re-enters streaming with the iteration count advanced.
pub fn turn_step(st: &mut Controller, event: TurnEvent, cfg: Config) -> (act: TurnAction)
    requires
        controller_wf(*old(st), cfg),
    ensures
        controller_wf(*final(st), cfg),
        match event {
            TurnEvent::UserLine { line, context } => {
                if old(st).phase is AwaitingInput {
                    let t = trim(line@);
                    &&& final(st).thread == old(st).thread
                    &&& if t.len() == 0 {
                        final(st).phase is AwaitingInput && act is Idle
                    } else if t == exit_command() {
                        final(st).phase is Finished && act is Quit
                    } else {
                        &&& final(st).phase matches Phase::Streaming { iterations: 0u32 }
                        &&& act matches TurnAction::Prompt { text } && text@ == outbound_prompt(
                            old(st).thread,
                            opt_view(context),
                            t,
                        )
                    }
                } else {
                    *final(st) == *old(st) && act is Idle
                }
            },
            TurnEvent::EndOfInput => {
                if old(st).phase is AwaitingInput {
                    final(st).thread == old(st).thread && final(st).phase is Finished
                        && act is Quit
                } else {
                    *final(st) == *old(st) && act is Idle
                }
            },
            TurnEvent::StreamEnded { msg } => {
                match old(st).phase {
                    Phase::Streaming { iterations: it } => match msg {
                        None => {
                            &&& final(st).thread == old(st).thread
                            &&& final(st).phase is AwaitingInput
                            &&& act is Idle
                        },
                        Some(m) => {
                            &&& final(st).thread == m.id
                            &&& if trim(m.text@).len() == 0 {
                                &&& final(st).phase matches Phase::Streaming { iterations: it2 }
                                    && it2 == it
                                &&& act matches TurnAction::Prompt { text } && text@
                                    == empty_warning()
                            } else {
                                let invs = parse_invocations_spec(m.text@);
                                if invs.len() == 0 {
                                    &&& final(st).phase is AwaitingInput
                                    &&& act matches TurnAction::ShowFinal { text } && text@
                                        == m.text@
                                } else if it >= cfg.max_tool_iterations {
                                    &&& final(st).phase is AwaitingInput
                                    &&& act matches TurnAction::Warn { text } && text@
                                        == max_iterations_warning()
                                } else {
                                    &&& final(st).phase matches Phase::RunningTools {
                                        iterations: it2,
                                    } && it2 == it
                                    &&& act matches TurnAction::RunTools { invocations }
                                        && invocation_views(invocations@) == invs
                                }
                            }
                        },
                    },
                    _ => *final(st) == *old(st) && act is Idle,
                }
            },
            TurnEvent::ToolResults { results } => {
                match old(st).phase {
                    Phase::RunningTools { iterations: it } => {
                        &&& final(st).thread == old(st).thread
                        &&& final(st).phase matches Phase::Streaming { iterations: it2 } && it2
                            == it + 1
                        &&& act matches TurnAction::Prompt { text } && text@ == follow_up_prompt(
                            results@,
                        )
                    },
                    _ => *final(st) == *old(st) && act is Idle,
                }
            },
        },
        event_matches(*old(st), event) && drives_tools(event) && in_tool_loop(*final(st))
            ==> loop_measure(*final(st), cfg) < loop_measure(*old(st), cfg),
{
    match event {
        TurnEvent::UserLine { line, context } => {
            match st.phase {
                Phase::AwaitingInput => {
                    let t = trim_bytes(line.as_slice());
                    if t.len() == 0 {
                        TurnAction::Idle
                    } else if bytes_eq(t.as_slice(), "/exit".as_bytes()) {
                        st.phase = Phase::Finished;
                        TurnAction::Quit
                    } else {
                        let text: Vec<u8> = match st.thread {
                            None => build_first_prompt(&context, t.as_slice()),
                            Some(_) => t,
                        };
                        st.phase = Phase::Streaming { iterations: 0 };
                        TurnAction::Prompt { text }
                    }
                },
                _ => TurnAction::Idle,
            }
        },
        TurnEvent::EndOfInput => {
            match st.phase {
                Phase::AwaitingInput => {
                    st.phase = Phase::Finished;
                    TurnAction::Quit
                },
                _ => TurnAction::Idle,
            }
        },
        TurnEvent::StreamEnded { msg } => {
            let it: u32 = match st.phase {
                Phase::Streaming { iterations } => iterations,
                _ => {
                    return TurnAction::Idle;
                },
            };
            match msg {
                None => {
                    st.phase = Phase::AwaitingInput;
                    TurnAction::Idle
                },
                Some(m) => {
                    st.thread = m.id;
                    let t = trim_bytes(m.text.as_slice());
                    if t.len() == 0 {
                        st.phase = Phase::Streaming { iterations: it };
                        let mut text: Vec<u8> = Vec::new();
                        push_all(&mut text, "WARNING: Your previous response was empty. Please provide a meaningful response or use tools as appropriate.\n\nContinue with the next step or provide the final answer.".as_bytes());
                        TurnAction::Prompt { text }
                    } else {
                        let invocations = parse_invocations(m.text.as_slice());
                        if invocations.len() == 0 {
                            proof {
                                assert(invocation_views(invocations@) =~~= parse_invocations_spec(
                                    m.text@,
                                ));
                            }
                            st.phase = Phase::AwaitingInput;
                            TurnAction::ShowFinal { text: m.text }
                        } else if it >= cfg.max_tool_iterations {
                            st.phase = Phase::AwaitingInput;
                            let mut text: Vec<u8> = Vec::new();
                            push_all(&mut text, "Warning: reached the maximum number of tool rounds for one turn; returning to input.".as_bytes());
                            TurnAction::Warn { text }
                        } else {
                            st.phase = Phase::RunningTools { iterations: it };
                            TurnAction::RunTools { invocations }
                        }
                    }
                },
            }
        },
        TurnEvent::ToolResults { results } => {
            let it: u32 = match st.phase {
                Phase::RunningTools { iterations } => iterations,
                _ => {
                    return TurnAction::Idle;
                },
            };
            let text = fold_results(&results);
            st.phase = Phase::Streaming { iterations: it + 1 };
            TurnAction::Prompt { text }
        },
    }
}

/// Any run of consecutive tool-driving steps is bounded: each step
/// strictly lowers the measure, so a run that stays in the loop cannot be
/// longer than the measure of its first state. With a fresh turn the
/// measure is at most twice the configured maximum plus one, so a model
/// that keeps emitting tool calls is cut off after the configured number
/// of rounds.
pub proof fn lemma_tool_loop_bounded(run: Seq<Controller>, cfg: Config)
    requires
        run.len() > 0,
        forall|i: int|
            0 <= i < run.len() - 1 ==> loop_measure(#[trigger] run[i + 1], cfg) < loop_measure(
                run[i],
                cfg,
            ),
        forall|i: int| 0 <= i < run.len() ==> loop_measure(#[trigger] run[i], cfg) >= 0,
    ensures
        run.len() <= loop_measure(run[0], cfg) + 1,
    decreases run.len(),
{
    if run.len() > 1 {
        let rest = run.skip(1);
        assert forall|i: int|
            0 <= i < rest.len() - 1 implies loop_measure(#[trigger] rest[i + 1], cfg)
            < loop_measure(rest[i], cfg) by {
            assert(rest[i + 1] == run[i + 2]);
            assert(rest[i] == run[i + 1]);
            assert(loop_measure(run[i + 2], cfg) < loop_measure(run[i + 1], cfg));
        }
        assert forall|i: int| 0 <= i < rest.len() implies loop_measure(
            #[trigger] rest[i],
            cfg,
        ) >= 0 by {
            assert(rest[i] == run[i + 1]);
        }
        lemma_tool_loop_bounded(rest, cfg);
        assert(loop_measure(run[1], cfg) < loop_measure(run[0], cfg));
    }
}

/// A well-formed state's measure never exceeds twice the configured
/// maximum plus one.
pub proof fn lemma_measure_bounded(st: Controller, cfg: Config)
    requires
        controller_wf(st, cfg),
    ensures
        0 <= loop_measure(st, cfg) <= 2 * cfg.max_tool_iterations + 1,
{
}

/// Bounded auto-continuation: a run of well-formed controller states in
/// which every step lowers the measure — which `turn_step` guarantees for
/// every tool-driving step that stays in the loop — can never be longer
/// than twice the configured maximum plus two states. A model that always
/// emits tool calls is therefore cut off, with the warning `turn_step`
/// issues when the budget is spent.
pub proof fn lemma_turn_is_cut_off(run: Seq<Controller>, cfg: Config)
    requires
        run.len() > 0,
        forall|i: int| 0 <= i < run.len() ==> controller_wf(#[trigger] run[i], cfg),
        forall|i: int|
            0 <= i < run.len() - 1 ==> loop_measure(#[trigger] run[i + 1], cfg) < loop_measure(
                run[i],
                cfg,
            ),
    ensures
        run.len() <= 2 * cfg.max_tool_iterations + 2,
{
    assert forall|i: int| 0 <= i < run.len() implies loop_measure(#[trigger] run[i], cfg)
        >= 0 by {
        lemma_measure_bounded(run[i], cfg);
    }
    lemma_tool_loop_bounded(run, cfg);
    lemma_measure_bounded(run[0], cfg);
}

} // verus!
