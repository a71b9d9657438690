use autoloop_core::chat::{
    approves, classify_chat_line, render_chat_event, ChatCommand, ChatEvent, ChatLine, ChatRender,
};

fn command(line: &str) -> Option<ChatCommand> {
    match classify_chat_line(line.len() + 1, line) {
        ChatLine::Command(c) => Some(c),
        _ => None,
    }
}

#[test]
fn chat_line_end_blank_exit_and_help() {
    assert!(matches!(classify_chat_line(0, ""), ChatLine::Eof));
    assert!(matches!(classify_chat_line(3, "  \n"), ChatLine::Blank));
    assert!(matches!(classify_chat_line(5, "quit\n"), ChatLine::Exit));
    assert!(matches!(classify_chat_line(7, " /exit \n"), ChatLine::Exit));
    assert!(matches!(classify_chat_line(6, "/help\n"), ChatLine::Help));
}

#[test]
fn chat_commands_are_recognised() {
    assert_eq!(command("/status"), Some(ChatCommand::Status));
    assert_eq!(command("//Health"), Some(ChatCommand::Health));
    assert_eq!(command("/command bridge"), Some(ChatCommand::Bridge));
    assert_eq!(command("/command"), Some(ChatCommand::Usage));
    assert_eq!(command("/trigger"), Some(ChatCommand::TriggerList));
    assert_eq!(command("/trigger LIST"), Some(ChatCommand::TriggerList));
    assert_eq!(command("/trigger run"), Some(ChatCommand::UnsupportedTrigger));
    assert_eq!(command("/session"), Some(ChatCommand::SessionStatus));
    assert_eq!(command("/session drop"), Some(ChatCommand::UnsupportedSession));
    assert_eq!(command("/deploy now"), Some(ChatCommand::Unsupported));
    assert_eq!(command("/"), Some(ChatCommand::Usage));
}

#[test]
fn chat_prompt_is_the_trimmed_line() {
    match classify_chat_line(12, "  hello you \n") {
        ChatLine::Prompt(p) => assert_eq!(p, "hello you"),
        other => panic!("unexpected {other:?}"),
    }
}

#[test]
fn approval_answers() {
    assert!(approves(" Y\n"));
    assert!(approves("approve"));
    assert!(approves("a"));
    assert!(!approves("no"));
    assert!(!approves(""));
}

#[test]
fn chat_events_render_deltas_and_tools() {
    let st = ChatRender { printed_prefix: false, printed_delta: false, last_sequence: 0 };
    let (st, out) = render_chat_event(st, 1, &ChatEvent::AssistantDelta { delta: Some("Hel".into()) });
    assert_eq!(out, "assistant> Hel");
    let (st, out) = render_chat_event(st, 2, &ChatEvent::AssistantDelta { delta: Some("lo".into()) });
    assert_eq!(out, "lo");
    assert!(st.printed_delta);
    let (st, out) = render_chat_event(st, 2, &ChatEvent::AssistantDelta { delta: Some("again".into()) });
    assert_eq!(out, "");
    let (st, out) = render_chat_event(
        st,
        3,
        &ChatEvent::ToolCompleted { tool_name: Some("write_file".into()), call_id: None, is_error: true },
    );
    assert_eq!(out, "\ntool(error)> tool=write_file call_id=unknown_call\n");
    assert!(!st.printed_prefix);
    let (st, out) = render_chat_event(st, 4, &ChatEvent::StateSnapshot { idle: true });
    assert_eq!(out, "");
    assert_eq!(st.last_sequence, 4);
}
