//! The command executor: what each command answers and what it does to
//! the key space.

use vstd::prelude::*;
use vstd::string::*;
use crate::command::{Command, CommandView, Reply, ReplyView};
use crate::keyspace::{KeySpace, KeySpaceView};

verus! {

/// The reply to `cmd`, executed at the instant `now` on `keyspace`; none
/// for `Exit`, which asks to close the connection instead.
pub open spec fn reply_to(cmd: CommandView, keyspace: KeySpaceView, now: u128) -> Option<
    ReplyView,
> {
    match cmd {
        CommandView::Exit => None,
        CommandView::Ping => Some(ReplyView::SimpleString("PONG"@)),
        CommandView::Echo(message) => Some(ReplyView::SimpleString(message)),
        CommandView::Get(key) => Some(keyspace.get(key, now)),
        CommandView::SetKey(set) => Some(keyspace.set_reply(set)),
    }
}

/// The key space after `cmd` was executed at the instant `now`: only a
/// `SET` changes it.
pub open spec fn state_after(cmd: CommandView, keyspace: KeySpaceView, now: u128) -> KeySpaceView {
    match cmd {
        CommandView::SetKey(set) => keyspace.set(set, now),
        _ => keyspace,
    }
}

/// Executes `cmd` on `keyspace` at the instant `now`, in milliseconds since
/// the epoch. Returns the reply to send, or `None` where the connection is
/// to be closed.
pub fn handle_cmd(cmd: Command, keyspace: &mut KeySpace, now: u128) -> (reply: Option<Reply>)
    ensures
        final(keyspace)@ == state_after(cmd@, old(keyspace)@, now),
        match reply {
            Some(r) => reply_to(cmd@, old(keyspace)@, now) == Some(r@),
            None => reply_to(cmd@, old(keyspace)@, now) is None,
        },
        reply is None <==> cmd is Exit,
{
    match cmd {
        Command::Exit => None,
        Command::Ping => Some(Reply::SimpleString(String::from_str("PONG"))),
        Command::Echo(message) => Some(Reply::SimpleString(message)),
        Command::Get(key) => Some(keyspace.get(key.as_str(), now)),
        Command::SetKey(set) => Some(keyspace.set(set, now)),
    }
}

/// The reply to a request that was read off the wire: a request that
/// failed to parse is answered with its error and leaves the key space
/// alone, any other is executed.
pub fn respond(request: Result<Command, String>, keyspace: &mut KeySpace, now: u128) -> (reply:
    Option<Reply>)
    ensures
        final(keyspace)@ == match request {
            Ok(cmd) => state_after(cmd@, old(keyspace)@, now),
            Err(_) => old(keyspace)@,
        },
        match (request, reply) {
            (Ok(cmd), Some(r)) => reply_to(cmd@, old(keyspace)@, now) == Some(r@),
            (Ok(cmd), None) => reply_to(cmd@, old(keyspace)@, now) is None,
            (Err(message), Some(r)) => r@ == ReplyView::Error(message@),
            (Err(_), None) => false,
        },
{
    match request {
        Ok(cmd) => handle_cmd(cmd, keyspace, now),
        Err(message) => Some(Reply::Error(message)),
    }
}

} // verus!
