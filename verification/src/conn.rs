//! One connection, end to end: await a command line, await a payload line
//! when the verb asks for one, execute, respond.  The socket reads happen
//! outside the library; each is handed in as a [`ReadOutcome`], and the
//! returned bytes are what the connection writes back before closing.

use vstd::prelude::*;
use crate::command::{
    command_new_store, command_response, error_response, now_ok, resp_error, handle_command,
};
use crate::store::{EntryModel, Store};
use crate::tokens::{CR, LF};

verus! {

/// What one attempt to read a line produced: a line of bytes (with its
/// terminator stripped), a read failure described by the transport's
/// message bytes, or a stream that ended before any line.
pub enum ReadOutcome {
    Line(Vec<u8>),
    Failed(Vec<u8>),
    Closed,
}

/// The payload line a read outcome contributes: only an actual line does.
pub open spec fn outcome_payload(p: Option<ReadOutcome>) -> Option<Seq<u8>> {
    match p {
        Some(ReadOutcome::Line(d)) => Some(d@),
        _ => None,
    }
}

/// The store after one connection: only a command line followed (where
/// asked for) by a payload line can change it.
pub open spec fn connection_new_store(
    m: Map<Seq<u8>, EntryModel>,
    now: u64,
    first: ReadOutcome,
    p: Option<ReadOutcome>,
) -> Map<Seq<u8>, EntryModel> {
    match first {
        ReadOutcome::Line(l) => {
            if p matches Some(ReadOutcome::Failed(_)) {
                m
            } else {
                command_new_store(m, now, l@, outcome_payload(p))
            }
        },
        _ => m,
    }
}

/// The bytes one connection writes back: `ERROR` when no command line
/// arrived, the transport's message when a read failed, and otherwise the
/// command's response.
pub open spec fn connection_response(
    m: Map<Seq<u8>, EntryModel>,
    now: u64,
    first: ReadOutcome,
    p: Option<ReadOutcome>,
) -> Seq<u8> {
    match first {
        ReadOutcome::Closed => resp_error(),
        ReadOutcome::Failed(msg) => msg@ + seq![CR, LF],
        ReadOutcome::Line(l) => match p {
            Some(ReadOutcome::Failed(msg)) => msg@ + seq![CR, LF],
            _ => command_response(m, now, l@, outcome_payload(p)),
        },
    }
}

fn failure_line(msg: Vec<u8>) -> (r: Vec<u8>)
    ensures
        r@ == msg@ + seq![CR, LF],
{
    let ghost m = msg@;
    let mut v = msg;
    v.push(CR);
    v.push(LF);
    proof {
        assert(v@ =~= m + seq![CR, LF]);
    }
    v
}

/// Run one connection's state machine over the lines its socket yielded:
/// `first` is the command-line read, `payload` the payload-line read where
/// one was awaited (`None` where none was).  Returns the response bytes to
/// write before closing; the store changes exactly as
/// `connection_new_store` states.
pub fn handle_connection(
    store: &mut Store,
    now: u64,
    first: ReadOutcome,
    payload: Option<ReadOutcome>,
) -> (r: Vec<u8>)
    requires
        old(store).wf(),
        now_ok(now),
    ensures
        final(store).wf(),
        final(store)@ == connection_new_store(old(store)@, now, first, payload),
        r@ == connection_response(old(store)@, now, first, payload),
{
    match first {
        ReadOutcome::Closed => error_response(),
        ReadOutcome::Failed(msg) => failure_line(msg),
        ReadOutcome::Line(l) => {
            match payload {
                Some(ReadOutcome::Failed(msg)) => failure_line(msg),
                Some(ReadOutcome::Line(d)) => handle_command(store, now, &l, Some(d)),
                Some(ReadOutcome::Closed) => handle_command(store, now, &l, None),
                None => handle_command(store, now, &l, None),
            }
        },
    }
}

} // verus!
