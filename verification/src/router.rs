//! The interaction router: maps a button-press token to a state change and a
//! reply.  The transport layer delivers the token and renders the reply.

use vstd::prelude::*;
use vstd::string::StringExecFns;
use vstd::utf8::encode_utf8;
use crate::numfmt::{dec_chars, u64_to_string};
use crate::progress::{complete_quest_at, quest_applied, settle};
use crate::user::{xp_to_next, InputMode, User, UserV};

verus! {

/// Which fixed menu a reply should carry.
#[derive(Clone, Copy, PartialEq, Eq, Structural, Debug)]
pub enum MenuKind {
    Main,
    Quests,
    Notes,
    Reminder,
    Force,
    Empty,
}

/// What a handled button press produces: a message, a menu, and whether a
/// stronger follow-up prompt should fire after a delay.
pub struct Reply {
    pub text: String,
    pub menu: MenuKind,
    pub follow_up: bool,
}

/// Character-for-character string equality, decided on the UTF-8 bytes.
pub fn str_eq(a: &str, b: &str) -> (r: bool)
    ensures
        r == (a@ == b@),
{
    let ab = a.as_bytes();
    let bb = b.as_bytes();
    if ab.len() != bb.len() {
        proof {
            if a@ == b@ {
                assert(false);
            }
        }
        return false;
    }
    let mut i: usize = 0;
    while i < ab.len()
        invariant
            0 <= i <= ab@.len(),
            ab@.len() == bb@.len(),
            ab@ == encode_utf8(a@),
            bb@ == encode_utf8(b@),
            forall|j: int| 0 <= j < i ==> ab@[j] == bb@[j],
        decreases ab@.len() - i,
    {
        if ab[i] != bb[i] {
            proof {
                if a@ == b@ {
                    assert(false);
                }
            }
            return false;
        }
        i = i + 1;
    }
    proof {
        assert(ab@ =~= bb@);
        vstd::utf8::encode_utf8_decode_utf8(a@);
        vstd::utf8::encode_utf8_decode_utf8(b@);
    }
    true
}

/// The lines of a list, separated by newlines.
pub open spec fn joined(l: Seq<Seq<char>>) -> Seq<char>
    decreases l.len(),
{
    if l.len() == 0 {
        Seq::empty()
    } else if l.len() == 1 {
        l[0]
    } else {
        l[0] + "\n"@ + joined(l.drop_first())
    }
}

/// Appending one line extends the joined text by a newline and that line.
proof fn lemma_joined_push(l: Seq<Seq<char>>, x: Seq<char>)
    ensures
        joined(l.push(x)) == if l.len() == 0 {
            x
        } else {
            joined(l) + "\n"@ + x
        },
    decreases l.len(),
{
    if l.len() == 0 {
        assert(l.push(x)[0] == x);
    } else {
        assert(l.push(x)[0] == l[0]);
        assert(l.push(x).drop_first() =~= l.drop_first().push(x));
        lemma_joined_push(l.drop_first(), x);
        if l.len() == 1 {
            assert(joined(l.push(x)) =~= joined(l) + "\n"@ + x);
        } else {
            assert(joined(l.push(x)) =~= joined(l) + "\n"@ + x);
        }
    }
}

/// Joins the lines of `v` with newlines.
pub fn join_lines(v: &Vec<String>) -> (s: String)
    ensures
        s@ == joined(v.deep_view()),
{
    let ghost l = v.deep_view();
    let mut s = String::new();
    let mut i: usize = 0;
    while i < v.len()
        invariant
            0 <= i <= v@.len(),
            l == v.deep_view(),
            v@.len() == l.len(),
            s@ == joined(l.take(i as int)),
        decreases v@.len() - i,
    {
        if i > 0 {
            s.append("\n");
        }
        s.append(v[i].as_str());
        proof {
            assert(l.take(i + 1) =~= l.take(i as int).push(l[i as int]));
            lemma_joined_push(l.take(i as int), l[i as int]);
        }
        i = i + 1;
    }
    proof {
        assert(l.take(l.len() as int) =~= l);
    }
    s
}

/// The profile view: level, experience against the next threshold, gold.
pub open spec fn profile_text(u: UserV) -> Seq<char> {
    "Level: "@ + dec_chars(u.level as nat) + "\nXP: "@ + dec_chars(u.xp as nat) + " / "@
        + dec_chars((100 * (u.level as int)) as nat) + "\nGold: "@ + dec_chars(u.gold as nat)
}

/// Builds the profile view for `u`.
fn build_profile(u: &User) -> (s: String)
    ensures
        s@ == profile_text(u@),
{
    let mut s = "Level: ".to_owned();
    let lv = u64_to_string(u.level as u64);
    s.append(lv.as_str());
    s.append("\nXP: ");
    let xs = u64_to_string(u.xp as u64);
    s.append(xs.as_str());
    s.append(" / ");
    let ts = u64_to_string(xp_to_next(u.level));
    s.append(ts.as_str());
    s.append("\nGold: ");
    let gs = u64_to_string(u.gold as u64);
    s.append(gs.as_str());
    proof {
        assert(s@ =~= profile_text(u@));
    }
    s
}

/// The reply to a completed quest: the rewards, and the new level if one was
/// reached.
pub open spec fn quest_reply_text(pre: UserV, name: Seq<char>, xp_gain: u32, gold_gain: u32)
    -> Seq<char> {
    let fin = settle(pre.level as int, pre.xp + xp_gain);
    let base = name + "\n+"@ + dec_chars(xp_gain as nat) + " XP"@;
    let with_gold = if gold_gain > 0 {
        base + ", +"@ + dec_chars(gold_gain as nat) + " gold"@
    } else {
        base
    };
    if fin.0 > pre.level {
        with_gold + "\nLevel up to "@ + dec_chars(fin.0 as nat)
    } else {
        with_gold
    }
}

/// Completes one quest and renders the reply shown under the quest menu.
pub fn quest(user: &mut User, name: &str, xp_gain: u32, gold_gain: u32, stamp: &str) -> (r: Reply)
    requires
        old(user)@.wf(),
        old(user).xp + xp_gain <= u32::MAX,
        old(user).gold + gold_gain <= u32::MAX,
    ensures
        final(user)@ == quest_applied(old(user)@, name@, xp_gain, gold_gain, stamp@),
        final(user)@.wf(),
        r.menu == MenuKind::Quests,
        !r.follow_up,
        r.text@ == quest_reply_text(old(user)@, name@, xp_gain, gold_gain),
{
    let lvl = complete_quest_at(user, name, xp_gain, gold_gain, stamp);
    let mut text = name.to_owned();
    text.append("\n+");
    let xs = u64_to_string(xp_gain as u64);
    text.append(xs.as_str());
    text.append(" XP");
    if gold_gain > 0 {
        text.append(", +");
        let gs = u64_to_string(gold_gain as u64);
        text.append(gs.as_str());
        text.append(" gold");
    }
    match lvl {
        Option::Some(l) => {
            text.append("\nLevel up to ");
            let ls = u64_to_string(l as u64);
            text.append(ls.as_str());
        },
        Option::None => {},
    }
    proof {
        assert(text@ =~= quest_reply_text(old(user)@, name@, xp_gain, gold_gain));
    }
    Reply { text, menu: MenuKind::Quests, follow_up: false }
}

/// A token that one of the menus can send.
pub open spec fn known_token(t: Seq<char>) -> bool {
    ||| t == "profile"@
    ||| t == "quests"@
    ||| t == "log"@
    ||| t == "notes"@
    ||| t == "add_note"@
    ||| t == "doing"@
    ||| t == "nothing"@
    ||| t == "forced_done"@
    ||| t == "q_apply"@
    ||| t == "q_study"@
    ||| t == "q_resume"@
    ||| t == "q_recruiter"@
    ||| t == "q_project"@
    ||| t == "back"@
}

/// A token whose handling grants quest rewards; only these need room for
/// the added experience and gold.
pub open spec fn grants_rewards(t: Seq<char>) -> bool {
    ||| t == "forced_done"@
    ||| t == "q_apply"@
    ||| t == "q_study"@
    ||| t == "q_resume"@
    ||| t == "q_recruiter"@
    ||| t == "q_project"@
}

/// The reply exists and shows `text` with `menu`, with the follow-up flag as
/// given.
pub open spec fn replies(r: Option<Reply>, text: Seq<char>, menu: MenuKind, follow_up: bool)
    -> bool {
    match r {
        Option::Some(rep) => rep.text@ == text && rep.menu == menu && rep.follow_up == follow_up,
        Option::None => false,
    }
}

/// What handling `token` at `stamp` does: the state change and the reply,
/// token by token.  An unknown token changes nothing and answers nothing.
pub open spec fn dispatch_post(
    pre: UserV,
    post: UserV,
    r: Option<Reply>,
    token: Seq<char>,
    stamp: Seq<char>,
) -> bool {
    &&& (!known_token(token) ==> r is None && post == pre)
    &&& (token == "profile"@ ==> post == pre && replies(
        r,
        profile_text(pre),
        MenuKind::Main,
        false,
    ))
    &&& (token == "quests"@ ==> post == pre && replies(
        r,
        "Pick a quest"@,
        MenuKind::Quests,
        false,
    ))
    &&& (token == "log"@ ==> post == pre && replies(
        r,
        "Log\n\n"@ + joined(pre.log),
        MenuKind::Main,
        false,
    ))
    &&& (token == "notes"@ ==> post == pre && replies(
        r,
        "Notes\n\n"@ + joined(pre.notes),
        MenuKind::Notes,
        false,
    ))
    &&& (token == "add_note"@ ==> post == UserV { input: InputMode::AwaitingNote, ..pre }
        && replies(r, "Write the note text"@, MenuKind::Empty, false))
    &&& (token == "doing"@ ==> post == UserV { awaiting_ping: false, ..pre } && replies(
        r,
        "Good, keep going"@,
        MenuKind::Main,
        false,
    ))
    &&& (token == "nothing"@ ==> post == UserV { awaiting_ping: false, ..pre } && replies(
        r,
        "Make one application right now"@,
        MenuKind::Empty,
        true,
    ))
    &&& (token == "forced_done"@ ==> post == (UserV {
        awaiting_ping: false,
        ..quest_applied(pre, "Apply"@, 20, 1, stamp)
    }) && replies(r, "Counted"@, MenuKind::Main, false))
    &&& (token == "q_apply"@ ==> post == quest_applied(pre, "Apply"@, 20, 1, stamp) && replies(
        r,
        quest_reply_text(pre, "Apply"@, 20, 1),
        MenuKind::Quests,
        false,
    ))
    &&& (token == "q_study"@ ==> post == quest_applied(pre, "Study"@, 15, 0, stamp) && replies(
        r,
        quest_reply_text(pre, "Study"@, 15, 0),
        MenuKind::Quests,
        false,
    ))
    &&& (token == "q_resume"@ ==> post == quest_applied(pre, "Resume"@, 30, 0, stamp) && replies(
        r,
        quest_reply_text(pre, "Resume"@, 30, 0),
        MenuKind::Quests,
        false,
    ))
    &&& (token == "q_recruiter"@ ==> post == quest_applied(pre, "Recruiter"@, 25, 1, stamp)
        && replies(r, quest_reply_text(pre, "Recruiter"@, 25, 1), MenuKind::Quests, false))
    &&& (token == "q_project"@ ==> post == quest_applied(pre, "Project"@, 50, 0, stamp)
        && replies(r, quest_reply_text(pre, "Project"@, 50, 0), MenuKind::Quests, false))
    &&& (token == "back"@ ==> post == pre && replies(r, "Main menu"@, MenuKind::Main, false))
}

/// Handles one button press: looks the token up, mutates the record, and
/// renders the reply; an unrecognised token is a no-op.
pub fn handle_token(user: &mut User, token: &str, stamp: &str) -> (r: Option<Reply>)
    requires
        old(user)@.wf(),
        grants_rewards(token@) ==> old(user).xp + 50 <= u32::MAX && old(user).gold + 1
            <= u32::MAX,
    ensures
        final(user)@.wf(),
        dispatch_post(old(user)@, final(user)@, r, token@, stamp@),
{
    proof {
        reveal_strlit("profile");
        reveal_strlit("quests");
        reveal_strlit("log");
        reveal_strlit("notes");
        reveal_strlit("add_note");
        reveal_strlit("doing");
        reveal_strlit("nothing");
        reveal_strlit("forced_done");
        reveal_strlit("q_apply");
        reveal_strlit("q_study");
        reveal_strlit("q_resume");
        reveal_strlit("q_recruiter");
        reveal_strlit("q_project");
        reveal_strlit("back");
        assert("profile"@.len() == 7 && "quests"@.len() == 6 && "log"@.len() == 3);
        assert("notes"@.len() == 5 && "add_note"@.len() == 8 && "doing"@.len() == 5);
        assert("nothing"@.len() == 7 && "forced_done"@.len() == 11 && "q_apply"@.len() == 7);
        assert("q_study"@.len() == 7 && "q_resume"@.len() == 8 && "q_recruiter"@.len() == 11);
        assert("q_project"@.len() == 9 && "back"@.len() == 4);
        assert("profile"@[0] == 'p' && "nothing"@[0] == 'n' && "q_apply"@[0] == 'q');
        assert("q_study"@[0] == 'q' && "q_apply"@[2] == 'a' && "q_study"@[2] == 's');
        assert("notes"@[0] == 'n' && "doing"@[0] == 'd');
        assert("add_note"@[0] == 'a' && "q_resume"@[0] == 'q');
        assert("forced_done"@[0] == 'f' && "q_recruiter"@[0] == 'q');
    }
    let ghost pre = user@;
    if str_eq(token, "profile") {
        let text = build_profile(user);
        Some(Reply { text, menu: MenuKind::Main, follow_up: false })
    } else if str_eq(token, "quests") {
        Some(Reply { text: "Pick a quest".to_owned(), menu: MenuKind::Quests, follow_up: false })
    } else if str_eq(token, "log") {
        let mut text = "Log\n\n".to_owned();
        let body = join_lines(&user.log);
        text.append(body.as_str());
        Some(Reply { text, menu: MenuKind::Main, follow_up: false })
    } else if str_eq(token, "notes") {
        let mut text = "Notes\n\n".to_owned();
        let body = join_lines(&user.notes);
        text.append(body.as_str());
        Some(Reply { text, menu: MenuKind::Notes, follow_up: false })
    } else if str_eq(token, "add_note") {
        user.input = InputMode::AwaitingNote;
        proof {
            assert(user@ =~= UserV { input: InputMode::AwaitingNote, ..pre });
        }
        Some(
            Reply { text: "Write the note text".to_owned(), menu: MenuKind::Empty, follow_up: false },
        )
    } else if str_eq(token, "doing") {
        user.awaiting_ping = false;
        proof {
            assert(user@ =~= UserV { awaiting_ping: false, ..pre });
        }
        Some(Reply { text: "Good, keep going".to_owned(), menu: MenuKind::Main, follow_up: false })
    } else if str_eq(token, "nothing") {
        user.awaiting_ping = false;
        proof {
            assert(user@ =~= UserV { awaiting_ping: false, ..pre });
        }
        Some(
            Reply {
                text: "Make one application right now".to_owned(),
                menu: MenuKind::Empty,
                follow_up: true,
            },
        )
    } else if str_eq(token, "forced_done") {
        complete_quest_at(user, "Apply", 20, 1, stamp);
        user.awaiting_ping = false;
        proof {
            assert(user@ =~= (UserV {
                awaiting_ping: false,
                ..quest_applied(pre, "Apply"@, 20, 1, stamp@)
            }));
        }
        Some(Reply { text: "Counted".to_owned(), menu: MenuKind::Main, follow_up: false })
    } else if str_eq(token, "q_apply") {
        Some(quest(user, "Apply", 20, 1, stamp))
    } else if str_eq(token, "q_study") {
        Some(quest(user, "Study", 15, 0, stamp))
    } else if str_eq(token, "q_resume") {
        Some(quest(user, "Resume", 30, 0, stamp))
    } else if str_eq(token, "q_recruiter") {
        Some(quest(user, "Recruiter", 25, 1, stamp))
    } else if str_eq(token, "q_project") {
        Some(quest(user, "Project", 50, 0, stamp))
    } else if str_eq(token, "back") {
        Some(Reply { text: "Main menu".to_owned(), menu: MenuKind::Main, follow_up: false })
    } else {
        None
    }
}

/// [`handle_token`] stamped with the current local time.
pub fn handle_callback(user: &mut User, token: &str) -> (r: Option<Reply>)
    requires
        old(user)@.wf(),
        grants_rewards(token@) ==> old(user).xp + 50 <= u32::MAX && old(user).gold + 1
            <= u32::MAX,
    ensures
        final(user)@.wf(),
        exists|stamp: Seq<char>|
            #[trigger] dispatch_post(old(user)@, final(user)@, r, token@, stamp),
{
    let stamp = crate::progress::now_stamp();
    handle_token(user, token, stamp.as_str())
}

} // verus!
