//! The decisions of the interactive loop: what a typed line asks for, and what
//! the loop does next.

use crate::text::{trim, trimmed};
use vstd::prelude::*;

verus! {

/// What a typed line asks for.
#[derive(Debug)]
pub enum Command {
    /// Nothing: the line is empty or white space.
    Skip,
    /// To leave: the line is `quit` or `exit`.
    Quit,
    /// To record the text, which is the trimmed line.
    Record(String),
}

/// What reading one line of input gave.
#[derive(Debug)]
pub enum Input {
    /// A line, with its line ending if it had one.
    Line(String),
    /// The input is at its end.
    End,
    /// Reading failed.
    Failed,
}

/// What the loop does after one read.
#[derive(Debug)]
pub enum Step {
    /// Ask again.
    Prompt,
    /// Record the text, report how it went, and ask again.
    Record(String),
    /// Say goodbye and stop.
    Farewell,
    /// Stop without a word: the input has ended.
    Finish,
    /// Report that reading failed, and stop.
    Abort,
}

/// Whether the trimmed line `typed` is a word that ends the session.
pub open spec fn is_quit_word(typed: Seq<char>) -> bool {
    typed == "quit"@ || typed == "exit"@
}

impl Command {
    /// Whether this is the command that the line `line` stands for.
    pub open spec fn is_command_of(self, line: Seq<char>) -> bool {
        match self {
            Command::Skip => trimmed(line).len() == 0,
            Command::Quit => is_quit_word(trimmed(line)),
            Command::Record(text) => {
                &&& text@ == trimmed(line)
                &&& text@.len() > 0
                &&& !is_quit_word(text@)
            },
        }
    }
}

impl Step {
    /// Whether this is the step that follows the read `input`.
    pub open spec fn follows(self, input: Input) -> bool {
        match input {
            Input::Line(line) => match self {
                Step::Prompt => Command::Skip.is_command_of(line@),
                Step::Farewell => Command::Quit.is_command_of(line@),
                Step::Record(text) => Command::Record(text).is_command_of(line@),
                _ => false,
            },
            Input::End => self is Finish,
            Input::Failed => self is Abort,
        }
    }
}

/// Reads a typed line as a command. The words `quit` and `exit` count only in
/// lower case and alone on the line.
pub fn parse_command(line: &str) -> (command: Command)
    ensures
        command.is_command_of(line@),
{
    let typed = trim(line);
    if typed.as_str().is_empty() {
        Command::Skip
    } else if typed == String::from_str("quit") || typed == String::from_str("exit") {
        Command::Quit
    } else {
        Command::Record(typed)
    }
}

/// The step of the interactive loop that follows one read.
pub fn next_step(input: &Input) -> (step: Step)
    ensures
        step.follows(*input),
{
    match input {
        Input::Line(line) => match parse_command(line.as_str()) {
            Command::Skip => Step::Prompt,
            Command::Quit => Step::Farewell,
            Command::Record(text) => Step::Record(text),
        },
        Input::End => Step::Finish,
        Input::Failed => Step::Abort,
    }
}

} // verus!
