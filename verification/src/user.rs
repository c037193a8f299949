//! The per-user record and its basic invariant.

use vstd::prelude::*;

verus! {

/// What the next free-text message from this user should be taken to mean.
#[derive(Clone, Copy, PartialEq, Eq, Structural, Debug)]
pub enum InputMode {
    /// Free text is ignored.
    Idle,
    /// The next free-text message becomes a new note.
    AwaitingNote,
}

impl Default for InputMode {
    fn default() -> (m: InputMode)
        ensures
            m == InputMode::Idle,
    {
        InputMode::Idle
    }
}

/// One user's full state, as stored and mutated by every interaction.
#[derive(PartialEq, Debug)]
pub struct User {
    /// Current level; starts at 1 and never decreases.
    pub level: u32,
    /// Experience within the current level; always below the level's threshold.
    pub xp: u32,
    /// Accumulated currency.
    pub gold: u32,
    /// Timestamped activity entries, newest first.
    pub log: Vec<String>,
    /// Free-text notes, newest first.
    pub notes: Vec<String>,
    /// Transient expectation for the next free-text message.
    pub input: InputMode,
    /// Whether the user still owes a response to the last reminder prompt.
    pub awaiting_ping: bool,
    /// When the last reminder prompt fired, as a unix timestamp.
    pub last_ping_ts: i64,
}

/// Mathematical image of a [`User`]: the same fields with the string
/// collections abstracted to sequences of character sequences.
#[verifier::ext_equal]
pub ghost struct UserV {
    pub level: u32,
    pub xp: u32,
    pub gold: u32,
    pub log: Seq<Seq<char>>,
    pub notes: Seq<Seq<char>>,
    pub input: InputMode,
    pub awaiting_ping: bool,
    pub last_ping_ts: i64,
}

impl View for User {
    type V = UserV;

    open spec fn view(&self) -> UserV {
        UserV {
            level: self.level,
            xp: self.xp,
            gold: self.gold,
            log: self.log.deep_view(),
            notes: self.notes.deep_view(),
            input: self.input,
            awaiting_ping: self.awaiting_ping,
            last_ping_ts: self.last_ping_ts,
        }
    }
}

/// Experience needed to advance from `level` to the next one.
pub open spec fn spec_xp_to_next(level: u32) -> int {
    100 * (level as int)
}

impl UserV {
    /// The record invariant: the level is positive and the experience sits
    /// strictly below the current level's threshold.
    pub open spec fn wf(self) -> bool {
        &&& 1 <= self.level
        &&& (self.xp as int) < spec_xp_to_next(self.level)
    }

    /// The state a user is created in on first contact.
    pub open spec fn initial() -> UserV {
        UserV {
            level: 1,
            xp: 0,
            gold: 0,
            log: Seq::empty(),
            notes: Seq::empty(),
            input: InputMode::Idle,
            awaiting_ping: false,
            last_ping_ts: 0,
        }
    }
}

/// Experience needed to advance from `level` to the next one, `100 * level`.
pub fn xp_to_next(level: u32) -> (t: u64)
    ensures
        t == spec_xp_to_next(level),
{
    (level as u64) * 100
}

impl Default for User {
    /// A fresh record: level 1, nothing earned, nothing logged, no prompt owed.
    fn default() -> (u: User)
        ensures
            u@ == UserV::initial(),
            u@.wf(),
    {
        let u = User {
            level: 1,
            xp: 0,
            gold: 0,
            log: Vec::new(),
            notes: Vec::new(),
            input: InputMode::Idle,
            awaiting_ping: false,
            last_ping_ts: 0,
        };
        proof {
            assert(u@ =~= UserV::initial());
        }
        u
    }
}

} // verus!
