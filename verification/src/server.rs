//! What the server decides: which engine serves a directory, and what the
//! accept loop does next.

use vstd::prelude::*;
use vstd::string::StrSliceExecFns;

verus! {

/// The storage engines that a directory can belong to.
#[derive(Debug, Clone, Copy, PartialEq, Eq, Structural)]
pub enum Engine {
    Kvs,
    Sled,
}

/// Whether `text` is `lower`, with any of its characters replaced by the
/// one of `upper` at the same place.
pub open spec fn spells(text: Seq<char>, lower: Seq<char>, upper: Seq<char>) -> bool {
    &&& text.len() == lower.len()
    &&& forall|i: int| 0 <= i < text.len() ==> text[i] == lower[i] || text[i] == upper[i]
}

/// The engine that `text` names, in upper or lower case: `kvs` or `sled`.
pub open spec fn engine_of_text(text: Seq<char>) -> Option<Engine> {
    if spells(text, "kvs"@, "KVS"@) {
        Some(Engine::Kvs)
    } else if spells(text, "sled"@, "SLED"@) {
        Some(Engine::Sled)
    } else {
        None
    }
}

/// The engine that serves a directory: the one asked for, else the one
/// that the directory records, else `kvs`. `None` where the one asked for
/// is not the one recorded.
pub open spec fn chosen_engine(asked: Option<Engine>, recorded: Option<Engine>) -> Option<
    Engine,
> {
    match (asked, recorded) {
        (None, None) => Some(Engine::Kvs),
        (None, Some(r)) => Some(r),
        (Some(a), None) => Some(a),
        (Some(a), Some(r)) => if a == r {
            Some(a)
        } else {
            None
        },
    }
}

fn spells_word(text: &str, lower: &str, upper: &str) -> (same: bool)
    requires
        lower@.len() == upper@.len(),
    ensures
        same == spells(text@, lower@, upper@),
{
    let n: usize = text.unicode_len();
    if n != lower.unicode_len() {
        return false;
    }
    let mut i: usize = 0;
    while i < n
        invariant
            i <= n,
            n == text@.len(),
            n == lower@.len(),
            n == upper@.len(),
            forall|j: int| 0 <= j < i ==> text@[j] == lower@[j] || text@[j] == upper@[j],
        decreases n - i,
    {
        let c: char = text.get_char(i);
        if c != lower.get_char(i) && c != upper.get_char(i) {
            return false;
        }
        i += 1;
    }
    true
}

impl Engine {
    /// The name of the engine as a directory records it.
    pub fn name(self) -> (text: String)
        ensures
            self == Engine::Kvs ==> text@ == "kvs"@,
            self == Engine::Sled ==> text@ == "sled"@,
    {
        match self {
            Engine::Kvs => "kvs".to_string(),
            Engine::Sled => "sled".to_string(),
        }
    }
}

/// The engine that `text` names, if it names one.
pub fn parse_engine(text: &str) -> (engine: Option<Engine>)
    ensures
        engine == engine_of_text(text@),
{
    proof {
        reveal_strlit("kvs");
        reveal_strlit("KVS");
        reveal_strlit("sled");
        reveal_strlit("SLED");
    }
    if spells_word(text, "kvs", "KVS") {
        Some(Engine::Kvs)
    } else if spells_word(text, "sled", "SLED") {
        Some(Engine::Sled)
    } else {
        None
    }
}

/// The engine that serves a directory, given the one asked for on the
/// command line and the one that the directory records; `None` where the
/// two differ.
pub fn get_engine(asked: Option<Engine>, recorded: Option<Engine>) -> (engine: Option<Engine>)
    ensures
        engine == chosen_engine(asked, recorded),
{
    match (asked, recorded) {
        (None, None) => Some(Engine::Kvs),
        (None, Some(r)) => Some(r),
        (Some(a), None) => Some(a),
        (Some(a), Some(r)) => {
            if a == r {
                Some(a)
            } else {
                None
            }
        },
    }
}

/// What the listener reported.
#[derive(Debug, Clone, Copy, PartialEq, Eq, Structural)]
pub enum AcceptEvent {
    /// A client connected.
    Connection,
    /// No client is waiting.
    WouldBlock,
    /// Accepting failed for another reason.
    Failed,
}

/// What the accept loop does next.
#[derive(Debug, Clone, Copy, PartialEq, Eq, Structural)]
pub enum AcceptAction {
    /// Hand the connection to the pool and go on.
    Serve,
    /// Sleep for `millis` milliseconds and go on.
    Wait { millis: u64 },
    /// Leave the loop.
    Stop,
    /// Log the failure and go on.
    Report,
}

/// How long the accept loop sleeps when no client is waiting.
pub const ACCEPT_POLL_MILLIS: u64 = 10;

/// The next step of the accept loop. A connection is served even when the
/// server is shutting down; the loop ends when no client is waiting and
/// shutdown was asked for.
pub fn accept_action(event: AcceptEvent, shutdown: bool) -> (action: AcceptAction)
    ensures
        event == AcceptEvent::Connection ==> action == AcceptAction::Serve,
        event == AcceptEvent::WouldBlock && shutdown ==> action == AcceptAction::Stop,
        event == AcceptEvent::WouldBlock && !shutdown ==> action == (AcceptAction::Wait {
            millis: ACCEPT_POLL_MILLIS,
        }),
        event == AcceptEvent::Failed ==> action == AcceptAction::Report,
{
    match event {
        AcceptEvent::Connection => AcceptAction::Serve,
        AcceptEvent::WouldBlock => {
            if shutdown {
                AcceptAction::Stop
            } else {
                AcceptAction::Wait { millis: ACCEPT_POLL_MILLIS }
            }
        },
        AcceptEvent::Failed => AcceptAction::Report,
    }
}

} // verus!
