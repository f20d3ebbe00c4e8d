//! The commands of the journal.

use vstd::prelude::*;

verus! {

/// What the user asks for.
#[derive(Debug)]
pub enum Command {
    /// Edit today's list of things to do.
    Todo,
    /// Add an entry under the time of day.
    Done,
    /// Add a note, under a tag where one is given.
    Note { tag: Option<String> },
}

/// A command as a mathematical value.
pub enum CommandView {
    Todo,
    Done,
    Note { tag: Option<Seq<char>> },
}

impl View for Command {
    type V = CommandView;

    open spec fn view(&self) -> CommandView {
        match *self {
            Command::Todo => CommandView::Todo,
            Command::Done => CommandView::Done,
            Command::Note { tag: Some(t) } => CommandView::Note { tag: Some(t@) },
            Command::Note { tag: None } => CommandView::Note { tag: None },
        }
    }
}

/// One invocation: the command to carry out.
#[derive(Debug)]
pub struct Cli {
    pub command: Command,
}

impl View for Cli {
    type V = CommandView;

    open spec fn view(&self) -> CommandView {
        self.command@
    }
}

} // verus!
