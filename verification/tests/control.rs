use agentloop::control::{
    Config, Controller, Phase, TurnAction, TurnEvent, controller_start, turn_step,
    project_context_of, token_of_file_content,
};
use agentloop::stream::FinalMessage;
use agentloop::report::ToolResult;

fn b(s: &str) -> Vec<u8> {
    s.as_bytes().to_vec()
}

fn cfg(max: u32) -> Config {
    Config { max_tool_iterations: max }
}

fn user(line: &str) -> TurnEvent {
    TurnEvent::UserLine { line: b(line), context: None }
}

fn message(id: i64, text: &str) -> TurnEvent {
    TurnEvent::StreamEnded { msg: Some(FinalMessage { id: Some(id), text: b(text) }) }
}

#[test]
fn blank_input_is_ignored() {
    let mut st = controller_start(None);
    let act = turn_step(&mut st, user("   "), cfg(5));
    assert!(matches!(act, TurnAction::Idle));
    assert!(matches!(st.phase, Phase::AwaitingInput));
}

#[test]
fn exit_command_quits() {
    let mut st = controller_start(None);
    let act = turn_step(&mut st, user("  /exit  "), cfg(5));
    assert!(matches!(act, TurnAction::Quit));
    assert!(matches!(st.phase, Phase::Finished));
}

#[test]
fn end_of_input_quits() {
    let mut st = controller_start(None);
    let act = turn_step(&mut st, TurnEvent::EndOfInput, cfg(5));
    assert!(matches!(act, TurnAction::Quit));
    assert!(matches!(st.phase, Phase::Finished));
}

#[test]
fn first_turn_prepends_the_preamble() {
    let mut st = controller_start(None);
    let act = turn_step(&mut st, user("hello"), cfg(5));
    match act {
        TurnAction::Prompt { text } => {
            let s = String::from_utf8(text).unwrap();
            assert!(s.starts_with("You are an assistant"));
            assert!(s.contains("Available tools:"));
            assert!(s.contains("- apply_search_replace : "));
            assert!(s.ends_with("\n\nUser: hello"));
        },
        _ => panic!("expected a prompt"),
    }
    assert!(matches!(st.phase, Phase::Streaming { iterations: 0 }));
}

#[test]
fn later_turns_send_the_raw_line() {
    let mut st = controller_start(Some(9));
    let act = turn_step(&mut st, user("  follow up  "), cfg(5));
    match act {
        TurnAction::Prompt { text } => assert_eq!(text, b("follow up")),
        _ => panic!("expected a prompt"),
    }
}

#[test]
fn first_turn_carries_the_project_context() {
    let mut st = controller_start(None);
    let ev = TurnEvent::UserLine { line: b("hi"), context: Some(b("ctx doc")) };
    match turn_step(&mut st, ev, cfg(5)) {
        TurnAction::Prompt { text } => {
            let s = String::from_utf8(text).unwrap();
            assert!(s.contains("\n\nProject context from DEEPSEEK.md:\nctx doc"));
        },
        _ => panic!("expected a prompt"),
    }
}

#[test]
fn cancellation_keeps_the_thread_pointer() {
    let mut st = controller_start(Some(41));
    turn_step(&mut st, user("go"), cfg(5));
    let act = turn_step(&mut st, TurnEvent::StreamEnded { msg: None }, cfg(5));
    assert!(matches!(act, TurnAction::Idle));
    assert!(matches!(st.phase, Phase::AwaitingInput));
    assert_eq!(st.thread, Some(41));
}

#[test]
fn a_committed_message_moves_the_thread_pointer() {
    let mut st = controller_start(None);
    turn_step(&mut st, user("go"), cfg(5));
    let act = turn_step(&mut st, message(7, "all done"), cfg(5));
    match act {
        TurnAction::ShowFinal { text } => assert_eq!(text, b("all done")),
        _ => panic!("expected the final content"),
    }
    assert_eq!(st.thread, Some(7));
    assert!(matches!(st.phase, Phase::AwaitingInput));
}

#[test]
fn empty_message_asks_again_and_commits() {
    let mut st = controller_start(None);
    turn_step(&mut st, user("go"), cfg(5));
    let act = turn_step(&mut st, message(3, "  \n "), cfg(5));
    match act {
        TurnAction::Prompt { text } => {
            let s = String::from_utf8(text).unwrap();
            assert!(s.starts_with("WARNING: Your previous response was empty."));
        },
        _ => panic!("expected a corrective prompt"),
    }
    assert_eq!(st.thread, Some(3));
    assert!(matches!(st.phase, Phase::Streaming { .. }));
    // An interrupt during the corrective stream returns silently to input.
    let act2 = turn_step(&mut st, TurnEvent::StreamEnded { msg: None }, cfg(5));
    assert!(matches!(act2, TurnAction::Idle));
    assert!(matches!(st.phase, Phase::AwaitingInput));
    assert_eq!(st.thread, Some(3));
}

#[test]
fn tool_messages_run_tools_and_results_continue() {
    let mut st = controller_start(None);
    turn_step(&mut st, user("go"), cfg(5));
    let act = turn_step(&mut st, message(1, "TOOL: run_command echo hi"), cfg(5));
    match act {
        TurnAction::RunTools { invocations } => {
            assert_eq!(invocations.len(), 1);
            assert_eq!(invocations[0].name, b("run_command"));
            assert_eq!(invocations[0].arg, b("echo hi"));
        },
        _ => panic!("expected tool execution"),
    }
    let results = vec![ToolResult { name: b("run_command"), ok: true, text: b("EXIT_CODE:0\nstdout:\nhi") }];
    let act2 = turn_step(&mut st, TurnEvent::ToolResults { results }, cfg(5));
    match act2 {
        TurnAction::Prompt { text } => {
            let s = String::from_utf8(text).unwrap();
            assert!(s.starts_with("TOOL RESULT for run_command:\n"));
            assert!(s.ends_with("Continue with the next step or provide the final answer."));
        },
        _ => panic!("expected a follow-up prompt"),
    }
    assert!(matches!(st.phase, Phase::Streaming { iterations: 1 }));
}

#[test]
fn relentless_tool_calls_stop_at_the_configured_bound() {
    let max: u32 = 3;
    let mut st = controller_start(None);
    turn_step(&mut st, user("go"), cfg(max));
    let mut rounds: u32 = 0;
    let mut warned = false;
    // A model that always answers with another tool call.
    for i in 0..20i64 {
        let act = turn_step(&mut st, message(i, "TOOL: run_command true"), cfg(max));
        match act {
            TurnAction::RunTools { .. } => {
                rounds += 1;
                let results = vec![ToolResult { name: b("run_command"), ok: true, text: b("EXIT_CODE:0\nCommand executed successfully (no output)") }];
                turn_step(&mut st, TurnEvent::ToolResults { results }, cfg(max));
            },
            TurnAction::Warn { text } => {
                warned = true;
                let s = String::from_utf8(text).unwrap();
                assert!(s.starts_with("Warning:"));
                break;
            },
            _ => panic!("unexpected action inside the tool loop"),
        }
    }
    assert!(warned);
    assert_eq!(rounds, max);
    assert!(matches!(st.phase, Phase::AwaitingInput));
}

#[test]
fn project_context_requires_substance() {
    assert_eq!(project_context_of(b"  \n "), None);
    assert_eq!(project_context_of(b"notes\n"), Some(b("notes\n")));
}

#[test]
fn tokens_are_trimmed_and_must_be_nonempty() {
    assert_eq!(token_of_file_content(b"  secret\n"), Some(b("secret")));
    assert_eq!(token_of_file_content(b" \n"), None);
}

#[test]
fn events_in_the_wrong_phase_are_ignored() {
    let mut st = controller_start(Some(2));
    let act = turn_step(
        &mut st,
        TurnEvent::ToolResults { results: Vec::new() },
        cfg(5),
    );
    assert!(matches!(act, TurnAction::Idle));
    assert!(matches!(st.phase, Phase::AwaitingInput));
    assert_eq!(st.thread, Some(2));
}
