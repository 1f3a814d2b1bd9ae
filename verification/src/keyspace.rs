//! The key space: the stored values and, beside them, the deadlines of the
//! keys that expire. Expiry is lazy: a key whose deadline has passed stays
//! stored and is merely answered as absent.

use vstd::prelude::*;
use vstd::hash_map::*;
use vstd::string::*;
use crate::command::{ConditionSet, ExpireSet, Reply, ReplyView, SetCmd, SetCmdView};

verus! {

/// The mathematical content of a key space.
pub struct KeySpaceView {
    /// The value stored under each key.
    pub values: Map<Seq<char>, Seq<char>>,
    /// The deadline, in milliseconds since the epoch, of each key that has
    /// one.
    pub expirations: Map<Seq<char>, u128>,
}

/// The deadline of a key written at `now` with the time-to-live `ttl`:
/// `now` plus the time-to-live, or the largest instant there is where the
/// sum lies beyond it.
pub open spec fn deadline(now: u128, ttl: ExpireSet) -> u128 {
    if now + ttl.millis() <= u128::MAX {
        (now + ttl.millis()) as u128
    } else {
        u128::MAX
    }
}

impl KeySpaceView {
    /// The key space that holds nothing.
    pub open spec fn empty() -> KeySpaceView {
        KeySpaceView { values: Map::empty(), expirations: Map::empty() }
    }

    /// Whether `key` has a deadline that lies before `now`.
    pub open spec fn is_expired(self, key: Seq<char>, now: u128) -> bool {
        self.expirations.contains_key(key) && now > self.expirations[key]
    }

    /// The reply to `GET key` at the instant `now`.
    pub open spec fn get(self, key: Seq<char>, now: u128) -> ReplyView {
        if self.values.contains_key(key) && !self.is_expired(key, now) {
            ReplyView::SimpleString(self.values[key])
        } else {
            ReplyView::BulkNil
        }
    }

    /// Whether the condition of `cmd` lets it write. Only the presence of
    /// the key among the values counts, expired or not.
    pub open spec fn admits(self, cmd: SetCmdView) -> bool {
        match cmd.condition {
            None => true,
            Some(ConditionSet::NX) => !self.values.contains_key(cmd.key),
            Some(ConditionSet::XX) => self.values.contains_key(cmd.key),
        }
    }

    /// The key space after `cmd` was executed at the instant `now`. A
    /// command without expiry leaves an earlier deadline of its key as it
    /// is.
    pub open spec fn set(self, cmd: SetCmdView, now: u128) -> KeySpaceView {
        if self.admits(cmd) {
            KeySpaceView {
                values: self.values.insert(cmd.key, cmd.val),
                expirations: match cmd.expired {
                    Some(ttl) => self.expirations.insert(cmd.key, deadline(now, ttl)),
                    None => self.expirations,
                },
            }
        } else {
            self
        }
    }

    /// The reply to `cmd`.
    pub open spec fn set_reply(self, cmd: SetCmdView) -> ReplyView {
        if self.admits(cmd) {
            ReplyView::SimpleString("OK"@)
        } else {
            ReplyView::BulkNil
        }
    }

    /// The key space after the commands `cmds` were executed in order,
    /// the `i`-th at the instant `times[i]`.
    pub open spec fn set_all(self, cmds: Seq<SetCmdView>, times: Seq<u128>) -> KeySpaceView
        decreases cmds.len(),
    {
        if cmds.len() == 0 {
            self
        } else {
            self.set_all(cmds.drop_last(), times.drop_last()).set(cmds.last(), times.last())
        }
    }
}

/// `GET` on a key under which nothing is stored answers nil, at any
/// instant.
pub proof fn law_get_absent_key(keyspace: KeySpaceView, key: Seq<char>, now: u128)
    requires
        !keyspace.values.contains_key(key),
    ensures
        keyspace.get(key, now) == ReplyView::BulkNil,
{
}

/// A key that no command has ever set is answered with nil: whatever
/// `SET`s were executed on an empty key space, at whatever instants, `GET`
/// on a key that none of them names answers nil.
pub proof fn law_get_never_set_key(
    cmds: Seq<SetCmdView>,
    times: Seq<u128>,
    key: Seq<char>,
    now: u128,
)
    requires
        cmds.len() == times.len(),
        forall|i: int| 0 <= i < cmds.len() ==> (#[trigger] cmds[i]).key != key,
    ensures
        !KeySpaceView::empty().set_all(cmds, times).values.contains_key(key),
        KeySpaceView::empty().set_all(cmds, times).get(key, now) == ReplyView::BulkNil,
    decreases cmds.len(),
{
    if cmds.len() > 0 {
        law_get_never_set_key(cmds.drop_last(), times.drop_last(), key, now);
    }
}

/// An unconditional `SET key val` without expiry answers `OK`, and a `GET`
/// of the key then answers `val`, whenever each is executed, provided the
/// key carries no deadline from an earlier `SET` that has passed by the
/// time of the `GET`.
pub proof fn law_get_after_set(
    keyspace: KeySpaceView,
    cmd: SetCmdView,
    set_at: u128,
    get_at: u128,
)
    requires
        cmd.condition is None,
        cmd.expired is None,
        !keyspace.is_expired(cmd.key, get_at),
    ensures
        keyspace.set_reply(cmd) == ReplyView::SimpleString("OK"@),
        keyspace.set(cmd, set_at).get(cmd.key, get_at) == ReplyView::SimpleString(cmd.val),
{
}

/// A `SET` without expiry does not clear the deadline that an earlier
/// `SET` gave its key: once that deadline has passed, `GET` answers nil
/// although the value was written anew.
pub proof fn law_set_keeps_deadline(
    keyspace: KeySpaceView,
    cmd: SetCmdView,
    set_at: u128,
    get_at: u128,
)
    requires
        cmd.expired is None,
        keyspace.is_expired(cmd.key, get_at),
    ensures
        keyspace.set(cmd, set_at).expirations == keyspace.expirations,
        keyspace.set(cmd, set_at).get(cmd.key, get_at) == ReplyView::BulkNil,
{
}

/// `SET key val NX` on a key that is stored answers nil and leaves the key
/// space as it was.
pub proof fn law_set_if_absent_on_stored_key(keyspace: KeySpaceView, cmd: SetCmdView, now: u128)
    requires
        cmd.condition == Some(ConditionSet::NX),
        keyspace.values.contains_key(cmd.key),
    ensures
        keyspace.set_reply(cmd) == ReplyView::BulkNil,
        keyspace.set(cmd, now) == keyspace,
{
}

/// `SET key val XX` on a key that is not stored answers nil, does not
/// create the key and leaves the key space as it was.
pub proof fn law_set_if_stored_on_absent_key(keyspace: KeySpaceView, cmd: SetCmdView, now: u128)
    requires
        cmd.condition == Some(ConditionSet::XX),
        !keyspace.values.contains_key(cmd.key),
    ensures
        keyspace.set_reply(cmd) == ReplyView::BulkNil,
        keyspace.set(cmd, now) == keyspace,
        !keyspace.set(cmd, now).values.contains_key(cmd.key),
{
}

/// A key written with a time-to-live is answered with its value up to and
/// at the instant that lies the time-to-live after the write, and with nil
/// at every later instant. With a time-to-live of zero, every instant
/// after the write is later.
pub proof fn law_get_around_deadline(
    keyspace: KeySpaceView,
    cmd: SetCmdView,
    ttl: ExpireSet,
    set_at: u128,
    get_at: u128,
)
    requires
        keyspace.admits(cmd),
        cmd.expired == Some(ttl),
    ensures
        keyspace.set_reply(cmd) == ReplyView::SimpleString("OK"@),
        keyspace.set(cmd, set_at).get(cmd.key, get_at) == if get_at > set_at + ttl.millis() {
            ReplyView::BulkNil
        } else {
            ReplyView::SimpleString(cmd.val)
        },
{
}

/// A key written with a time-to-live of zero milliseconds is answered
/// with nil at every instant after the write.
pub proof fn law_zero_time_to_live(
    keyspace: KeySpaceView,
    cmd: SetCmdView,
    set_at: u128,
    get_at: u128,
)
    requires
        keyspace.admits(cmd),
        cmd.expired == Some(ExpireSet::PX(0)),
        get_at > set_at,
    ensures
        keyspace.set(cmd, set_at).get(cmd.key, get_at) == ReplyView::BulkNil,
{
}

/// The deadline of a key written at `now` with the time-to-live `ttl`.
pub fn deadline_at(now: u128, ttl: ExpireSet) -> (d: u128)
    ensures
        d == deadline(now, ttl),
{
    let millis: u128 = match ttl {
        ExpireSet::EX(seconds) => (seconds as u128) * 1000,
        ExpireSet::PX(millis) => millis,
    };
    now.saturating_add(millis)
}

/// The stored values and the deadlines of the keys that expire.
pub struct KeySpace {
    values: StringHashMap<String>,
    expirations: StringHashMap<u128>,
}

impl View for KeySpace {
    type V = KeySpaceView;

    closed spec fn view(&self) -> KeySpaceView {
        KeySpaceView {
            values: self.values@.map_values(|v: String| v@),
            expirations: self.expirations@,
        }
    }
}

impl KeySpace {
    /// A key space that holds nothing.
    pub fn new() -> (keyspace: Self)
        ensures
            keyspace@ == KeySpaceView::empty(),
    {
        let keyspace = KeySpace { values: StringHashMap::new(), expirations: StringHashMap::new() };
        proof {
            assert(keyspace@.values =~= Map::empty());
        }
        keyspace
    }

    /// Answers `GET key` at the instant `now`: the stored value, or nil
    /// where nothing is stored under the key or its deadline has passed.
    /// Nothing is removed.
    pub fn get(&self, key: &str, now: u128) -> (reply: Reply)
        ensures
            reply@ == self@.get(key@, now),
            !self@.values.contains_key(key@) ==> reply@ == ReplyView::BulkNil,
    {
        match self.values.get(key) {
            None => Reply::BulkNil,
            Some(val) => {
                match self.expirations.get(key) {
                    None => Reply::SimpleString(val.clone()),
                    Some(limit) => {
                        if now > *limit {
                            Reply::BulkNil
                        } else {
                            Reply::SimpleString(val.clone())
                        }
                    },
                }
            },
        }
    }

    /// Executes `cmd` at the instant `now`. The condition is tested
    /// before anything is written; where it fails the key space stays as it
    /// was and the reply is nil. Otherwise the deadline, if the command
    /// has an expiry, and then the value are written, and the reply is
    /// `OK`.
    pub fn set(&mut self, cmd: SetCmd, now: u128) -> (reply: Reply)
        ensures
            final(self)@ == old(self)@.set(cmd@, now),
            reply@ == old(self)@.set_reply(cmd@),
            cmd.condition == Some(ConditionSet::NX) && old(self)@.values.contains_key(cmd.key@)
                ==> reply@ == ReplyView::BulkNil && final(self)@ == old(self)@,
            cmd.condition == Some(ConditionSet::XX) && !old(self)@.values.contains_key(cmd.key@)
                ==> reply@ == ReplyView::BulkNil && final(self)@ == old(self)@,
    {
        let present = self.values.contains_key(cmd.key.as_str());
        let admitted = match cmd.condition {
            None => true,
            Some(ConditionSet::NX) => !present,
            Some(ConditionSet::XX) => present,
        };
        if !admitted {
            return Reply::BulkNil;
        }
        match cmd.expired {
            Some(ttl) => {
                let limit: u128 = deadline_at(now, ttl);
                self.expirations.insert(cmd.key.clone(), limit);
            },
            None => {},
        }
        let ghost key = cmd.key@;
        let ghost val = cmd.val@;
        self.values.insert(cmd.key, cmd.val);
        proof {
            assert(self@.values =~= old(self)@.values.insert(key, val));
        }
        Reply::SimpleString(String::from_str("OK"))
    }
}

} // verus!
