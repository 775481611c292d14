//! The commands that make up the log, and the positions that locate them.

use vstd::prelude::*;

verus! {

/// A command as it is written to the log.
#[derive(Debug, Clone, PartialEq, Eq)]
pub enum Command {
    /// Bind `key` to `value`.
    Put { key: String, value: String },
    /// Drop the binding of `key`.
    Remove { key: String },
}

/// The mathematical value of a [`Command`].
pub enum CommandView {
    Put { key: Seq<char>, value: Seq<char> },
    Remove { key: Seq<char> },
}

impl View for Command {
    type V = CommandView;

    open spec fn view(&self) -> CommandView {
        match self {
            Command::Put { key, value } => CommandView::Put { key: key@, value: value@ },
            Command::Remove { key } => CommandView::Remove { key: key@ },
        }
    }
}

impl CommandView {
    /// The key that the command is about.
    pub open spec fn key(self) -> Seq<char> {
        match self {
            CommandView::Put { key, .. } => key,
            CommandView::Remove { key } => key,
        }
    }
}

impl Command {
    /// The key that the command is about.
    pub fn key(&self) -> (k: &String)
        ensures
            k@ == self@.key(),
    {
        match self {
            Command::Put { key, .. } => key,
            Command::Remove { key } => key,
        }
    }
}

/// Where one record lies: the term file, the offset of its first byte in
/// that file, and its length in bytes.
#[derive(Debug, Clone, Copy, PartialEq, Eq, Structural)]
pub struct Pos {
    pub term: u64,
    pub offset: u64,
    pub len: u64,
}

impl View for Pos {
    type V = Pos;

    open spec fn view(&self) -> Pos {
        *self
    }
}

impl DeepView for Pos {
    type V = Pos;

    open spec fn deep_view(&self) -> Pos {
        *self
    }
}

/// One record of a term file: the command and the number of bytes that its
/// encoding takes in the file.
#[derive(Debug, Clone, PartialEq, Eq)]
pub struct LogRecord {
    pub cmd: Command,
    pub len: u64,
}

/// The mathematical value of a [`LogRecord`].
pub struct RecordView {
    pub cmd: CommandView,
    pub len: u64,
}

impl View for LogRecord {
    type V = RecordView;

    open spec fn view(&self) -> RecordView {
        RecordView { cmd: self.cmd@, len: self.len }
    }
}

/// The records of one term file, in file order.
#[derive(Debug, Clone, PartialEq, Eq)]
pub struct TermLog {
    pub term: u64,
    pub records: Vec<LogRecord>,
}

/// The mathematical value of a [`TermLog`].
pub struct TermLogView {
    pub term: u64,
    pub records: Seq<RecordView>,
}

impl View for TermLog {
    type V = TermLogView;

    open spec fn view(&self) -> TermLogView {
        TermLogView { term: self.term, records: self.records.deep_view() }
    }
}

impl DeepView for TermLog {
    type V = TermLogView;

    open spec fn deep_view(&self) -> TermLogView {
        self@
    }
}

impl DeepView for LogRecord {
    type V = RecordView;

    open spec fn deep_view(&self) -> RecordView {
        self@
    }
}

} // verus!
