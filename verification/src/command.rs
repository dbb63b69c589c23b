//! The commands of a review session and the keys that give them.

use vstd::prelude::*;
use crate::status::Status;

verus! {

/// A key press as the session sees it.
#[derive(Clone, Copy, Debug, PartialEq, Eq, Structural)]
pub enum Key {
    /// A key that produces a character.
    Character(char),
    /// The enter key.
    Enter,
    /// Any other key.
    Other,
}

/// One step of a review session.
#[derive(Clone, Copy, Debug, PartialEq, Eq, Structural)]
pub enum Command {
    /// End the session.
    Quit,
    /// Stage a status for the next movement.
    SetPending(Status),
    /// Go to the first record.
    JumpToStart,
    /// Apply what is staged and go one record on.
    Advance,
    /// Apply what is staged and go one record back.
    Retreat,
    /// Apply what is staged to the run of records of the same sender.
    PropagateBySender,
    /// Apply what is staged to the run of records of the same domain.
    PropagateByDomain,
    /// Drop the records that still have the initial status.
    CommitFilter,
    /// Draw the current record again.
    Redraw,
}

/// The command a key stands for, if it stands for one.
pub open spec fn command_for(key: Key) -> Option<Command> {
    match key {
        Key::Character(c) => if c == 'q' {
            Some(Command::Quit)
        } else if c == 'a' {
            Some(Command::SetPending(Status::Archive))
        } else if c == 'f' {
            Some(Command::SetPending(Status::FollowUp))
        } else if c == 'r' {
            Some(Command::SetPending(Status::ReadThrough))
        } else if c == 'i' {
            Some(Command::SetPending(Status::Inbox))
        } else if c == '0' {
            Some(Command::JumpToStart)
        } else if c == 'j' {
            Some(Command::Advance)
        } else if c == 'k' {
            Some(Command::Retreat)
        } else if c == 'p' {
            Some(Command::PropagateBySender)
        } else if c == 'd' {
            Some(Command::PropagateByDomain)
        } else if c == 'w' {
            Some(Command::CommitFilter)
        } else {
            None
        },
        Key::Enter => Some(Command::Redraw),
        Key::Other => None,
    }
}

impl Command {
    /// Whether the screen is drawn again after the command.
    pub open spec fn spec_redraws(self) -> bool {
        match self {
            Command::JumpToStart
            | Command::Advance
            | Command::Retreat
            | Command::PropagateBySender
            | Command::PropagateByDomain
            | Command::Redraw => true,
            Command::Quit | Command::SetPending(_) | Command::CommitFilter => false,
        }
    }

    /// Whether the screen is drawn again after the command.
    #[verifier::when_used_as_spec(spec_redraws)]
    pub fn redraws(self) -> (r: bool)
        ensures
            r == self.spec_redraws(),
    {
        match self {
            Command::JumpToStart
            | Command::Advance
            | Command::Retreat
            | Command::PropagateBySender
            | Command::PropagateByDomain
            | Command::Redraw => true,
            Command::Quit | Command::SetPending(_) | Command::CommitFilter => false,
        }
    }

    /// Reads a key as a command. Keys without a meaning give `None`.
    pub fn from_key(key: Key) -> (r: Option<Command>)
        ensures
            r == command_for(key),
    {
        match key {
            Key::Character(c) => {
                if c == 'q' {
                    Some(Command::Quit)
                } else if c == 'a' {
                    Some(Command::SetPending(Status::Archive))
                } else if c == 'f' {
                    Some(Command::SetPending(Status::FollowUp))
                } else if c == 'r' {
                    Some(Command::SetPending(Status::ReadThrough))
                } else if c == 'i' {
                    Some(Command::SetPending(Status::Inbox))
                } else if c == '0' {
                    Some(Command::JumpToStart)
                } else if c == 'j' {
                    Some(Command::Advance)
                } else if c == 'k' {
                    Some(Command::Retreat)
                } else if c == 'p' {
                    Some(Command::PropagateBySender)
                } else if c == 'd' {
                    Some(Command::PropagateByDomain)
                } else if c == 'w' {
                    Some(Command::CommitFilter)
                } else {
                    None
                }
            },
            Key::Enter => Some(Command::Redraw),
            Key::Other => None,
        }
    }
}

} // verus!
