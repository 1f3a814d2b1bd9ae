//! The typed commands a client can send and the replies the server gives,
//! each with the mathematical view that the contracts speak of.

use vstd::prelude::*;

verus! {

/// A time-to-live relative to the moment a `SET` is executed.
#[derive(Debug, Clone, Copy, PartialEq, Eq, Structural)]
pub enum ExpireSet {
    /// Seconds.
    EX(u32),
    /// Milliseconds.
    PX(u128),
}

impl ExpireSet {
    /// The time-to-live in milliseconds.
    pub open spec fn millis(self) -> nat {
        match self {
            ExpireSet::EX(seconds) => (seconds as nat) * 1000,
            ExpireSet::PX(millis) => millis as nat,
        }
    }
}

/// The condition under which a `SET` writes.
#[derive(Debug, Clone, Copy, PartialEq, Eq, Structural)]
pub enum ConditionSet {
    /// Write only if the key is not stored yet.
    NX,
    /// Write only if the key is already stored.
    XX,
}

/// The arguments of a `SET`.
#[derive(Debug, PartialEq, Eq)]
pub struct SetCmd {
    pub key: String,
    pub val: String,
    pub expired: Option<ExpireSet>,
    pub condition: Option<ConditionSet>,
}

/// A `SetCmd` with its strings as character sequences.
pub struct SetCmdView {
    pub key: Seq<char>,
    pub val: Seq<char>,
    pub expired: Option<ExpireSet>,
    pub condition: Option<ConditionSet>,
}

impl View for SetCmd {
    type V = SetCmdView;

    open spec fn view(&self) -> SetCmdView {
        SetCmdView {
            key: self.key@,
            val: self.val@,
            expired: self.expired,
            condition: self.condition,
        }
    }
}

impl Clone for SetCmd {
    fn clone(&self) -> (cmd: Self)
        ensures
            cmd@ == self@,
    {
        SetCmd {
            key: self.key.clone(),
            val: self.val.clone(),
            expired: self.expired,
            condition: self.condition,
        }
    }
}

impl SetCmd {
    /// A plain `SET key val`: no expiry, no condition.
    pub fn new(key: String, val: String) -> (cmd: Self)
        ensures
            cmd@ == (SetCmdView { key: key@, val: val@, expired: None, condition: None }),
    {
        SetCmd { key, val, expired: None, condition: None }
    }

    /// A `SET key val` with the given expiry and condition.
    pub fn new_with_options(
        key: String,
        val: String,
        expired: Option<ExpireSet>,
        condition: Option<ConditionSet>,
    ) -> (cmd: Self)
        ensures
            cmd@ == (SetCmdView { key: key@, val: val@, expired, condition }),
    {
        SetCmd { key, val, expired, condition }
    }
}

/// One request of a client. `Exit` stands for the end of the client's
/// input.
#[derive(Debug, PartialEq, Eq)]
pub enum Command {
    Ping,
    Exit,
    Echo(String),
    Get(String),
    SetKey(SetCmd),
}

/// A `Command` with its strings as character sequences.
pub enum CommandView {
    Ping,
    Exit,
    Echo(Seq<char>),
    Get(Seq<char>),
    SetKey(SetCmdView),
}

impl View for Command {
    type V = CommandView;

    open spec fn view(&self) -> CommandView {
        match self {
            Command::Ping => CommandView::Ping,
            Command::Exit => CommandView::Exit,
            Command::Echo(message) => CommandView::Echo(message@),
            Command::Get(key) => CommandView::Get(key@),
            Command::SetKey(cmd) => CommandView::SetKey(cmd@),
        }
    }
}

impl Clone for Command {
    fn clone(&self) -> (cmd: Self)
        ensures
            cmd@ == self@,
    {
        match self {
            Command::Ping => Command::Ping,
            Command::Exit => Command::Exit,
            Command::Echo(message) => Command::Echo(message.clone()),
            Command::Get(key) => Command::Get(key.clone()),
            Command::SetKey(cmd) => Command::SetKey(cmd.clone()),
        }
    }
}

/// What the server answers to a command.
#[derive(Debug, PartialEq, Eq)]
pub enum Reply {
    SimpleString(String),
    BulkNil,
    Error(String),
}

/// A `Reply` with its strings as character sequences.
pub enum ReplyView {
    SimpleString(Seq<char>),
    BulkNil,
    Error(Seq<char>),
}

impl View for Reply {
    type V = ReplyView;

    open spec fn view(&self) -> ReplyView {
        match self {
            Reply::SimpleString(text) => ReplyView::SimpleString(text@),
            Reply::BulkNil => ReplyView::BulkNil,
            Reply::Error(message) => ReplyView::Error(message@),
        }
    }
}

impl Clone for Reply {
    fn clone(&self) -> (reply: Self)
        ensures
            reply@ == self@,
    {
        match self {
            Reply::SimpleString(text) => Reply::SimpleString(text.clone()),
            Reply::BulkNil => Reply::BulkNil,
            Reply::Error(message) => Reply::Error(message.clone()),
        }
    }
}

} // verus!
