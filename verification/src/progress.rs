//! Progression rules: experience gains, cascading level-ups, penalties and
//! the newest-first activity log.

use vstd::prelude::*;
use vstd::string::StringExecFns;
use crate::numfmt::{dec_chars, u64_to_string};
use crate::user::{spec_xp_to_next, InputMode, User, UserV};

verus! {

/// Experience a reminder sweep takes from a user who ignored the last prompt.
pub const PING_PENALTY: u32 = 20;

/// Repeatedly trades a full threshold of experience for one level, until the
/// experience sits below the current level's threshold.
pub open spec fn settle(level: int, xp: int) -> (int, int)
    decreases xp,
    when level >= 1 && 0 <= xp
{
    if xp >= 100 * level {
        settle(level + 1, xp - 100 * level)
    } else {
        (level, xp)
    }
}

/// One log line: the stamp, a separator, the message.
pub open spec fn log_entry(stamp: Seq<char>, text: Seq<char>) -> Seq<char> {
    stamp + " - "@ + text
}

/// Message recorded when a level is reached.
pub open spec fn levelup_text(level: u32) -> Seq<char> {
    "Level up to "@ + dec_chars(level as nat)
}

/// Message summarising a completed quest and its rewards.
pub open spec fn quest_text(name: Seq<char>, xp_gain: u32, gold_gain: u32) -> Seq<char> {
    if gold_gain > 0 {
        name + " (+"@ + dec_chars(xp_gain as nat) + " XP, +"@ + dec_chars(gold_gain as nat)
            + " gold)"@
    } else {
        name + " (+"@ + dec_chars(xp_gain as nat) + " XP)"@
    }
}

/// Message recorded when a penalty is applied.
pub open spec fn punish_text(xp_pen: u32) -> Seq<char> {
    "Procrastination (-"@ + dec_chars(xp_pen as nat) + " XP)"@
}

/// The log entries written by the level-ups that granting `xp` at `level`
/// causes, newest first (the highest level reached comes first).
pub open spec fn levelup_entries(stamp: Seq<char>, level: int, xp: int) -> Seq<Seq<char>>
    decreases xp,
    when level >= 1 && 0 <= xp
{
    if xp >= 100 * level {
        levelup_entries(stamp, level + 1, xp - 100 * level) + seq![
            log_entry(stamp, levelup_text((level + 1) as u32)),
        ]
    } else {
        Seq::empty()
    }
}

/// `pre` with one entry prepended to its log and nothing else changed.
pub open spec fn logged(pre: UserV, stamp: Seq<char>, text: Seq<char>) -> UserV {
    UserV { log: seq![log_entry(stamp, text)] + pre.log, ..pre }
}

/// `pre` after a penalty: experience drops by `xp_pen`, floored at zero, and
/// the penalty is logged.
pub open spec fn punished(pre: UserV, xp_pen: u32, stamp: Seq<char>) -> UserV {
    let dropped = if pre.xp >= xp_pen {
        (pre.xp - xp_pen) as u32
    } else {
        0u32
    };
    logged(UserV { xp: dropped, ..pre }, stamp, punish_text(xp_pen))
}

/// `pre` after completing a quest: rewards added, level-ups settled and
/// logged, then one summary entry prepended.
pub open spec fn quest_applied(
    pre: UserV,
    name: Seq<char>,
    xp_gain: u32,
    gold_gain: u32,
    stamp: Seq<char>,
) -> UserV {
    let total = pre.xp + xp_gain;
    let fin = settle(pre.level as int, total);
    UserV {
        level: fin.0 as u32,
        xp: fin.1 as u32,
        gold: (pre.gold + gold_gain) as u32,
        log: seq![log_entry(stamp, quest_text(name, xp_gain, gold_gain))] + levelup_entries(
            stamp,
            pre.level as int,
            total,
        ) + pre.log,
        ..pre
    }
}

/// `pre` with a new note on top, the creation logged, and the input
/// expectation consumed.
pub open spec fn noted(pre: UserV, text: Seq<char>, stamp: Seq<char>) -> UserV {
    logged(
        UserV { notes: seq![text] + pre.notes, input: InputMode::Idle, ..pre },
        stamp,
        "Note created"@,
    )
}

/// `pre` after one reminder sweep at time `now`: an ignored prompt is
/// penalised, then a new prompt is owed.
pub open spec fn swept(pre: UserV, now: i64, stamp: Seq<char>) -> UserV {
    let mid = if pre.awaiting_ping {
        punished(pre, PING_PENALTY, stamp)
    } else {
        pre
    };
    UserV { awaiting_ping: true, last_ping_ts: now, ..mid }
}

/// Settling always lands the experience inside the final level's threshold,
/// and never lowers the level.
pub proof fn lemma_settle_wf(level: int, xp: int)
    requires
        level >= 1,
        0 <= xp,
    ensures
        settle(level, xp).0 >= level,
        0 <= settle(level, xp).1 < 100 * settle(level, xp).0,
    decreases xp,
{
    if xp >= 100 * level {
        lemma_settle_wf(level + 1, xp - 100 * level);
    }
}

/// Granting exactly the current threshold advances exactly one level and
/// keeps the experience remainder unchanged; from remainder zero it stays
/// zero.
pub proof fn lemma_exact_threshold(level: u32, xp: u32)
    requires
        1 <= level,
        (xp as int) < spec_xp_to_next(level),
    ensures
        settle(level as int, xp as int + 100 * (level as int)) == (level as int + 1, xp as int),
{
    let l = level as int;
    let x = xp as int;
    assert(settle(l, x + 100 * l) == settle(l + 1, x));
    assert(settle(l + 1, x) == (l + 1, x));
}

/// The level-up entries written for one gain are exactly one per level
/// gained, consecutive and descending: the entry at position `k` records the
/// final level minus `k`.
pub proof fn lemma_levelup_entries(stamp: Seq<char>, level: int, xp: int)
    requires
        level >= 1,
        0 <= xp,
    ensures
        levelup_entries(stamp, level, xp).len() == settle(level, xp).0 - level,
        forall|k: int|
            0 <= k < levelup_entries(stamp, level, xp).len() ==> levelup_entries(
                stamp,
                level,
                xp,
            )[k] == log_entry(stamp, levelup_text((settle(level, xp).0 - k) as u32)),
    decreases xp,
{
    if xp >= 100 * level {
        lemma_levelup_entries(stamp, level + 1, xp - 100 * level);
        lemma_settle_wf(level + 1, xp - 100 * level);
    }
}

/// Completing a quest prepends exactly one summary entry naming the quest:
/// it sits at position 0, the level-up entries follow, and the previous log
/// is kept unchanged behind them.
pub proof fn lemma_quest_log_shape(
    pre: UserV,
    name: Seq<char>,
    xp_gain: u32,
    gold_gain: u32,
    stamp: Seq<char>,
)
    requires
        pre.wf(),
    ensures
        ({
            let post = quest_applied(pre, name, xp_gain, gold_gain, stamp);
            let gained = settle(pre.level as int, pre.xp + xp_gain).0 - pre.level;
            &&& post.log[0] == log_entry(stamp, quest_text(name, xp_gain, gold_gain))
            &&& post.log.len() == pre.log.len() + 1 + gained
            &&& post.log.skip(1 + gained) == pre.log
        }),
{
    let post = quest_applied(pre, name, xp_gain, gold_gain, stamp);
    lemma_settle_wf(pre.level as int, pre.xp + xp_gain);
    lemma_levelup_entries(stamp, pre.level as int, pre.xp + xp_gain);
    let gained = settle(pre.level as int, pre.xp + xp_gain).0 - pre.level;
    assert(post.log.skip(1 + gained) =~= pre.log);
}

/// Builds one log line from a stamp and a message.
fn make_entry(stamp: &str, text: &str) -> (e: String)
    ensures
        e@ == log_entry(stamp@, text@),
{
    let mut e = stamp.to_owned();
    e.append(" - ");
    e.append(text);
    proof {
        assert(e@ =~= log_entry(stamp@, text@));
    }
    e
}

/// Prepends a stamped entry to the activity log; everything else is kept.
pub fn log_at(user: &mut User, stamp: &str, text: &str)
    ensures
        final(user)@ == logged(old(user)@, stamp@, text@),
{
    let e = make_entry(stamp, text);
    let ghost pre = user@;
    let ghost pre_vec = user.log@;
    user.log.insert(0, e);
    proof {
        assert(user.log@ == pre_vec.insert(0, e));
        assert forall|j: int| 0 <= j < user.log.deep_view().len() implies user.log.deep_view()[j]
            == (seq![log_entry(stamp@, text@)] + pre.log)[j] by {
            if j == 0 {
                assert(user.log@[0] == e);
            } else {
                assert(user.log@[j] == pre_vec[j - 1]);
            }
        }
        assert(user.log.deep_view() =~= seq![log_entry(stamp@, text@)] + pre.log);
        assert(user@ =~= logged(pre, stamp@, text@));
    }
}

/// Takes `xp_pen` experience away, floored at zero, and logs the penalty.
/// The experience never goes below zero, whatever the penalty.
pub fn punish_at(user: &mut User, xp_pen: u32, stamp: &str)
    requires
        old(user)@.wf(),
    ensures
        final(user)@ == punished(old(user)@, xp_pen, stamp@),
        final(user)@.wf(),
{
    let ghost pre = user@;
    if user.xp >= xp_pen {
        user.xp = user.xp - xp_pen;
    } else {
        user.xp = 0;
    }
    let mut txt = "Procrastination (-".to_owned();
    let p = u64_to_string(xp_pen as u64);
    txt.append(p.as_str());
    txt.append(" XP)");
    proof {
        assert(txt@ =~= punish_text(xp_pen));
    }
    log_at(user, stamp, txt.as_str());
    proof {
        assert(user@ =~= punished(pre, xp_pen, stamp@));
    }
}

/// Builds the message recorded when `level` is reached.
fn levelup_message(level: u32) -> (t: String)
    ensures
        t@ == levelup_text(level),
{
    let mut txt = "Level up to ".to_owned();
    let ls = u64_to_string(level as u64);
    txt.append(ls.as_str());
    proof {
        assert(txt@ =~= levelup_text(level));
    }
    txt
}

/// Builds the summary message for a completed quest.
fn quest_summary(name: &str, xp_gain: u32, gold_gain: u32) -> (t: String)
    ensures
        t@ == quest_text(name@, xp_gain, gold_gain),
{
    let mut txt = name.to_owned();
    txt.append(" (+");
    let xs = u64_to_string(xp_gain as u64);
    txt.append(xs.as_str());
    if gold_gain > 0 {
        txt.append(" XP, +");
        let gs = u64_to_string(gold_gain as u64);
        txt.append(gs.as_str());
        txt.append(" gold)");
    } else {
        txt.append(" XP)");
    }
    proof {
        assert(txt@ =~= quest_text(name@, xp_gain, gold_gain));
    }
    txt
}

/// Adds the quest's rewards, trades experience for levels while a full
/// threshold is available (logging each level reached, newest first), then
/// logs one summary entry; returns the new level if at least one level was
/// gained, and nothing otherwise.
pub fn complete_quest_at(
    user: &mut User,
    name: &str,
    xp_gain: u32,
    gold_gain: u32,
    stamp: &str,
) -> (r: Option<u32>)
    requires
        old(user)@.wf(),
        old(user).xp + xp_gain <= u32::MAX,
        old(user).gold + gold_gain <= u32::MAX,
    ensures
        final(user)@ == quest_applied(old(user)@, name@, xp_gain, gold_gain, stamp@),
        final(user)@.wf(),
        final(user)@.level as int == settle(
            old(user)@.level as int,
            old(user)@.xp + xp_gain,
        ).0,
        final(user)@.xp as int == settle(old(user)@.level as int, old(user)@.xp + xp_gain).1,
        r == if final(user)@.level > old(user)@.level {
            Some(final(user)@.level)
        } else {
            None::<u32>
        },
{
    let ghost pre = user@;
    user.xp = user.xp + xp_gain;
    user.gold = user.gold + gold_gain;
    let ghost l0: int = user.level as int;
    let ghost x0: int = user.xp as int;
    let ghost base = user@;
    let ghost mut produced: Seq<Seq<char>> = Seq::empty();
    let mut level_up: Option<u32> = None;
    proof {
        assert(levelup_entries(stamp@, l0, x0) =~= levelup_entries(stamp@, l0, x0) + produced);
        assert(user@.log =~= produced + base.log);
    }
    while (user.xp as u64) >= (user.level as u64) * 100
        invariant
            user.level >= 1,
            user.level as int >= l0,
            user.xp <= x0,
            x0 <= u32::MAX,
            settle(user.level as int, user.xp as int) == settle(l0, x0),
            levelup_entries(stamp@, l0, x0) == levelup_entries(
                stamp@,
                user.level as int,
                user.xp as int,
            ) + produced,
            user@.log == produced + base.log,
            user@.gold == base.gold,
            user@.notes == base.notes,
            user@.input == base.input,
            user@.awaiting_ping == base.awaiting_ping,
            user@.last_ping_ts == base.last_ping_ts,
            level_up == if user.level as int > l0 {
                Some(user.level)
            } else {
                None::<u32>
            },
        decreases user.xp,
    {
        let t: u64 = (user.level as u64) * 100;
        let ghost lc: int = user.level as int;
        let ghost xc: int = user.xp as int;
        user.xp = ((user.xp as u64) - t) as u32;
        user.level = user.level + 1;
        let lvl_txt = levelup_message(user.level);
        log_at(user, stamp, lvl_txt.as_str());
        level_up = Some(user.level);
        proof {
            produced = seq![log_entry(stamp@, levelup_text(user.level))] + produced;
            assert(settle(lc, xc) == settle(lc + 1, xc - 100 * lc));
            assert(levelup_entries(stamp@, lc, xc) == levelup_entries(
                stamp@,
                lc + 1,
                xc - 100 * lc,
            ) + seq![log_entry(stamp@, levelup_text((lc + 1) as u32))]);
            assert(levelup_entries(stamp@, l0, x0) =~= levelup_entries(
                stamp@,
                user.level as int,
                user.xp as int,
            ) + produced);
            assert(user@.log =~= produced + base.log);
        }
    }
    proof {
        assert(settle(user.level as int, user.xp as int) == (user.level as int, user.xp as int));
        assert(levelup_entries(stamp@, user.level as int, user.xp as int)
            =~= Seq::<Seq<char>>::empty());
        assert(levelup_entries(stamp@, l0, x0) =~= produced);
    }
    let summary = quest_summary(name, xp_gain, gold_gain);
    log_at(user, stamp, summary.as_str());
    proof {
        assert(user@ =~= quest_applied(pre, name@, xp_gain, gold_gain, stamp@));
    }
    level_up
}

/// Stores `text` as the newest note, logs its creation, and clears the
/// pending input expectation; the log gains exactly that one entry and the
/// notes exactly that one element.
pub fn add_note_at(user: &mut User, text: &str, stamp: &str)
    ensures
        final(user)@ == noted(old(user)@, text@, stamp@),
{
    let ghost pre = user@;
    let ghost pre_vec = user.notes@;
    let note = text.to_owned();
    user.notes.insert(0, note);
    proof {
        assert forall|j: int| 0 <= j < user.notes.deep_view().len() implies user.notes.deep_view()[j]
            == (seq![text@] + pre.notes)[j] by {
            if j > 0 {
                assert(user.notes@[j] == pre_vec[j - 1]);
            }
        }
        assert(user.notes.deep_view() =~= seq![text@] + pre.notes);
    }
    user.input = InputMode::Idle;
    log_at(user, stamp, "Note created");
    proof {
        assert(user@ =~= noted(pre, text@, stamp@));
    }
}

/// One reminder-sweep step for one user: penalises an ignored prompt, then
/// marks a fresh prompt owed at time `now`.
pub fn sweep_user_at(user: &mut User, now: i64, stamp: &str)
    requires
        old(user)@.wf(),
    ensures
        final(user)@ == swept(old(user)@, now, stamp@),
        final(user)@.wf(),
{
    let ghost pre = user@;
    if user.awaiting_ping {
        punish_at(user, PING_PENALTY, stamp);
    }
    user.awaiting_ping = true;
    user.last_ping_ts = now;
    proof {
        assert(user@ =~= swept(pre, now, stamp@));
    }
}

/// Relies on chrono's `Local::now` and `DateTime::format`: renders the local
/// clock's current time as "day.month hour:minute".  The result depends on
/// the wall clock, so nothing is promised of it.
#[verifier::external_body]
pub(crate) fn now_stamp() -> (s: String) {
    format!("{}", chrono::Local::now().format("%d.%m %H:%M"))
}

/// Relies on chrono's `Utc::now`: the current time in unix seconds.  The
/// result depends on the wall clock, so nothing is promised of it.
#[verifier::external_body]
fn now_ts() -> (t: i64) {
    chrono::Utc::now().timestamp()
}

/// Prepends an entry stamped with the current local time to the log.
pub fn log(user: &mut User, text: &str)
    ensures
        exists|stamp: Seq<char>| final(user)@ == #[trigger] logged(old(user)@, stamp, text@),
{
    let stamp = now_stamp();
    log_at(user, stamp.as_str(), text);
}

/// [`punish_at`] stamped with the current local time.
pub fn punish(user: &mut User, xp_pen: u32)
    requires
        old(user)@.wf(),
    ensures
        final(user)@.wf(),
        exists|stamp: Seq<char>| final(user)@ == #[trigger] punished(old(user)@, xp_pen, stamp),
{
    let stamp = now_stamp();
    punish_at(user, xp_pen, stamp.as_str());
}

/// [`complete_quest_at`] stamped with the current local time.
pub fn complete_quest(user: &mut User, name: &str, xp_gain: u32, gold_gain: u32) -> (r: Option<
    u32,
>)
    requires
        old(user)@.wf(),
        old(user).xp + xp_gain <= u32::MAX,
        old(user).gold + gold_gain <= u32::MAX,
    ensures
        final(user)@.wf(),
        exists|stamp: Seq<char>|
            final(user)@ == #[trigger] quest_applied(old(user)@, name@, xp_gain, gold_gain, stamp),
        r == if final(user)@.level > old(user)@.level {
            Some(final(user)@.level)
        } else {
            None::<u32>
        },
{
    let stamp = now_stamp();
    complete_quest_at(user, name, xp_gain, gold_gain, stamp.as_str())
}

/// [`add_note_at`] stamped with the current local time.
pub fn add_note(user: &mut User, text: &str)
    ensures
        exists|stamp: Seq<char>| final(user)@ == #[trigger] noted(old(user)@, text@, stamp),
{
    let stamp = now_stamp();
    add_note_at(user, text, stamp.as_str());
}

/// [`sweep_user_at`] at the current clock time.
pub fn sweep_user(user: &mut User)
    requires
        old(user)@.wf(),
    ensures
        final(user)@.wf(),
        final(user)@.awaiting_ping,
        exists|stamp: Seq<char>|
            final(user)@ == #[trigger] swept(old(user)@, final(user)@.last_ping_ts, stamp),
{
    let now = now_ts();
    let stamp = now_stamp();
    sweep_user_at(user, now, stamp.as_str());
    proof {
        assert(user@.last_ping_ts == now);
        assert(user@ == swept(old(user)@, user@.last_ping_ts, stamp@));
    }
}

} // verus!
