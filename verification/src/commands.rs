//! The text-command collaborator: classification of command messages and
//! the local `/help` and `/version` handlers; everything else is a forward
//! signal carrying the trimmed text.

use vstd::prelude::*;

verus! {

use vstd::string::StringExecFns;
use crate::strutil::{trim_spec, str_trim, str_eq};

/// A command message is one whose trimmed content starts with `/`.
pub open spec fn is_command_spec(content: Seq<char>) -> bool {
    trim_spec(content).len() > 0 && trim_spec(content)[0] == '/'
}

/// Whether a message content is a command.
pub fn is_command(content: &str) -> (b: bool)
    ensures
        b == is_command_spec(content@),
{
    let t = str_trim(content);
    t.unicode_len() > 0 && t.get_char(0) == '/'
}

/// What the command handler decided: a local reply to send back, or a
/// forward signal carrying the trimmed text for the gateway.
pub enum CommandOutcome {
    Reply(String),
    Forward(String),
}

/// Mathematical model of a command outcome.
pub enum OutcomeModel {
    Reply(Seq<char>),
    Forward(Seq<char>),
}

impl View for CommandOutcome {
    type V = OutcomeModel;

    open spec fn view(&self) -> OutcomeModel {
        match self {
            CommandOutcome::Reply(s) => OutcomeModel::Reply(s@),
            CommandOutcome::Forward(s) => OutcomeModel::Forward(s@),
        }
    }
}

pub open spec fn help_text_spec() -> Seq<char> {
    "Available commands:\n/help - Show this help message\n/version - Show bridge version\n/new - Start a new conversation (forwarded to gateway)\n/reset - Reset current conversation (forwarded to gateway)\n\nMost other commands are forwarded to the OpenClaw Gateway."@
}

pub open spec fn version_text_spec() -> Seq<char> {
    "OpenClaw Bridge Rust v0.1.0 (Rust implementation)"@
}

/// Only `/help` and `/version` are handled locally; every other trimmed
/// text is forwarded to the gateway.
pub open spec fn handle_command_spec(content: Seq<char>) -> OutcomeModel {
    let t = trim_spec(content);
    if t == "/help"@ {
        OutcomeModel::Reply(help_text_spec())
    } else if t == "/version"@ {
        OutcomeModel::Reply(version_text_spec())
    } else {
        OutcomeModel::Forward(t)
    }
}

/// Handles the local text commands.
pub struct CommandHandler {
}

impl CommandHandler {
    pub fn new() -> (r: CommandHandler)
        ensures
            r == (CommandHandler {  }),
    {
        CommandHandler {  }
    }

    /// Handles a command: a local reply for `/help` and `/version`, a
    /// forward signal carrying the trimmed text for everything else.
    pub fn handle_command(&self, content: &str) -> (r: CommandOutcome)
        ensures
            r@ == handle_command_spec(content@),
    {
        let t = str_trim(content);
        if str_eq(t, "/help") {
            CommandOutcome::Reply(String::from_str(
                "Available commands:\n/help - Show this help message\n/version - Show bridge version\n/new - Start a new conversation (forwarded to gateway)\n/reset - Reset current conversation (forwarded to gateway)\n\nMost other commands are forwarded to the OpenClaw Gateway.",
            ))
        } else if str_eq(t, "/version") {
            CommandOutcome::Reply(String::from_str(
                "OpenClaw Bridge Rust v0.1.0 (Rust implementation)",
            ))
        } else {
            CommandOutcome::Forward(String::from_str(t))
        }
    }
}

impl Default for CommandHandler {
    fn default() -> (r: CommandHandler)
        ensures
            r == (CommandHandler {  }),
    {
        CommandHandler {  }
    }
}

} // verus!
