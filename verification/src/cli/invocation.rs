//! What comes of a whole command line.
use crate::cli::actions::{asks_json, refusal, take_version, validate, wants_json};
use crate::cli::command::{command_opt, parsed, Cli, CliView, Command, CommandView, OutputFormat};
use crate::cli::tokens::{Usage, UsageView};
use crate::text::views;
use vstd::prelude::*;

verus! {

/// What is done with a command line.
#[derive(Debug)]
pub enum Invocation {
    Help,
    /// It is refused; `json` is how that is told.
    Refuse { json: bool, message: String },
    Execute { json: bool, command: Option<Command> },
}

#[verifier::ext_equal]
pub enum InvocationView {
    Help,
    Refuse { json: bool, message: Seq<char> },
    Execute { json: bool, command: Option<CommandView> },
}

impl View for Invocation {
    type V = InvocationView;

    open spec fn view(&self) -> InvocationView {
        match *self {
            Invocation::Help => InvocationView::Help,
            Invocation::Refuse { json, message } => InvocationView::Refuse { json, message: message@ },
            Invocation::Execute { json, command } => InvocationView::Execute {
                json,
                command: command_opt(command),
            },
        }
    }
}

/// The flag for the version stands for the command, and for no other one.
pub open spec fn versioned(c: CliView) -> Result<CliView, Seq<char>> {
    if !c.version {
        Ok(c)
    } else if c.command is None || c.command->0 is Version {
        Ok(CliView { command: Some(CommandView::Version), ..c })
    } else {
        Err("--version cannot be combined with another command"@)
    }
}

pub open spec fn invoked(args: Seq<Seq<char>>, stdin_terminal: bool, stdout_terminal: bool) -> InvocationView {
    match parsed(args) {
        Err(UsageView::Help) => InvocationView::Help,
        Err(UsageView::Wrong(message)) => InvocationView::Refuse { json: asks_json(args), message },
        Ok(c) => {
            let json = c.output == Some(OutputFormat::Json);
            match versioned(c) {
                Err(message) => InvocationView::Refuse { json, message },
                Ok(v) => match refusal(v, stdin_terminal, stdout_terminal) {
                    Some(message) => InvocationView::Refuse { json, message },
                    None => InvocationView::Execute { json, command: v.command },
                },
            }
        },
    }
}

pub fn invocation(args: &Vec<String>, stdin_terminal: bool, stdout_terminal: bool) -> (r: Invocation)
    ensures
        r@ == invoked(views(args@), stdin_terminal, stdout_terminal),
{
    let cli = match Cli::try_parse_from(args) {
        Ok(cli) => cli,
        Err(Usage::Help) => {
            return Invocation::Help;
        },
        Err(Usage::Wrong(message)) => {
            let json = wants_json(args);
            return Invocation::Refuse { json, message };
        },
    };
    let json = match cli.output {
        Some(OutputFormat::Json) => true,
        _ => false,
    };
    let ghost read = cli@;
    let cli = match take_version(cli) {
        Ok(cli) => cli,
        Err(message) => {
            return Invocation::Refuse { json, message: message.to_owned() };
        },
    };
    assert(versioned(read) == Ok::<CliView, Seq<char>>(cli@));
    match validate(&cli, stdin_terminal, stdout_terminal) {
        Ok(()) => Invocation::Execute { json, command: cli.command },
        Err(message) => Invocation::Refuse { json, message: message.to_owned() },
    }
}

/// What is carried out with an answer in JSON is done at once: it opens no interface, no editor
/// and no terminal, and does not stay in the foreground.
pub proof fn law_json_is_for_commands_that_end(args: Seq<Seq<char>>, stdin_terminal: bool, stdout_terminal: bool)
    ensures
        invoked(args, stdin_terminal, stdout_terminal) matches InvocationView::Execute { json, command } ==> json ==> {
            &&& command is Some
            &&& !(command->0 is Attach) && !(command->0 is Runner)
            &&& command->0 matches CommandView::Daemon { handoff, relinquish } ==> handoff || relinquish
            &&& command->0 matches CommandView::Edit { path, .. } ==> path
            &&& command->0 matches CommandView::History { editor, .. } ==> editor is None
        },
{
}

} // verus!
