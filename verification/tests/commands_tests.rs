use openclaw_bridge::commands::{is_command, CommandHandler, CommandOutcome};

#[test]
fn commands_start_with_slash_after_trimming() {
    assert!(is_command("/help"));
    assert!(is_command("  /anything else"));
    assert!(!is_command("hello"));
    assert!(!is_command(""));
    assert!(!is_command("   "));
    assert!(!is_command("not /a command"));
}

#[test]
fn help_is_handled_locally() {
    let h = CommandHandler::new();
    match h.handle_command(" /help ") {
        CommandOutcome::Reply(text) => {
            assert!(text.as_str().starts_with("Available commands:"));
            assert!(text.as_str().contains("/version"));
        }
        _ => panic!("/help must reply locally"),
    }
}

#[test]
fn version_is_handled_locally() {
    let h = CommandHandler::new();
    match h.handle_command("/version") {
        CommandOutcome::Reply(text) => {
            assert_eq!(text.as_str(), "OpenClaw Bridge Rust v0.1.0 (Rust implementation)");
        }
        _ => panic!("/version must reply locally"),
    }
}

#[test]
fn other_commands_are_forwarded_trimmed() {
    let h = CommandHandler::new();
    match h.handle_command("  /new some text  ") {
        CommandOutcome::Forward(text) => assert_eq!(text.as_str(), "/new some text"),
        _ => panic!("unknown commands forward to the gateway"),
    }
}

#[test]
fn default_handler_matches_new() {
    let _h: CommandHandler = Default::default();
    match CommandHandler::new().handle_command("/reset") {
        CommandOutcome::Forward(text) => assert_eq!(text.as_str(), "/reset"),
        _ => panic!("/reset forwards to the gateway"),
    }
}
