use questbot::menu::{force_menu, main_menu, notes_menu, quest_menu, reminder_menu};
use questbot::router::{handle_callback, handle_token, join_lines, str_eq, MenuKind};
use questbot::user::{InputMode, User};

#[test]
fn profile_view_is_exact() {
    let mut u = User::default();
    let r = handle_token(&mut u, "profile", "t").expect("known token");
    assert_eq!(r.text, "Level: 1\nXP: 0 / 100\nGold: 0");
    assert_eq!(r.menu, MenuKind::Main);
    assert!(!r.follow_up);
    assert_eq!(u, User::default());
}

#[test]
fn quest_token_applies_rewards() {
    let mut u = User::default();
    let r = handle_token(&mut u, "q_apply", "t").expect("known token");
    assert_eq!(u.xp, 20);
    assert_eq!(u.gold, 1);
    assert_eq!(r.text, "Apply\n+20 XP, +1 gold");
    assert_eq!(r.menu, MenuKind::Quests);
    assert_eq!(u.log[0], "t - Apply (+20 XP, +1 gold)");
}

#[test]
fn quest_reply_reports_level_up() {
    let mut u = User::default();
    u.xp = 99;
    let r = handle_token(&mut u, "q_study", "t").expect("known token");
    assert_eq!(u.level, 2);
    assert_eq!(u.xp, 14);
    assert_eq!(r.text, "Study\n+15 XP\nLevel up to 2");
}

#[test]
fn unknown_token_is_a_no_op() {
    let mut u = User::default();
    u.gold = 3;
    assert!(handle_token(&mut u, "bogus", "t").is_none());
    assert_eq!(u.gold, 3);
    assert_eq!(u.level, 1);
    assert!(u.log.is_empty());
}

#[test]
fn add_note_token_sets_input_mode() {
    let mut u = User::default();
    let r = handle_token(&mut u, "add_note", "t").expect("known token");
    assert_eq!(u.input, InputMode::AwaitingNote);
    assert_eq!(r.menu, MenuKind::Empty);
    assert_eq!(r.text, "Write the note text");
}

#[test]
fn reminder_answers_clear_prompt() {
    let mut u = User::default();
    u.awaiting_ping = true;
    let r = handle_token(&mut u, "doing", "t").expect("known token");
    assert!(!u.awaiting_ping);
    assert!(!r.follow_up);

    let mut v = User::default();
    v.awaiting_ping = true;
    let r2 = handle_token(&mut v, "nothing", "t").expect("known token");
    assert!(!v.awaiting_ping);
    assert!(r2.follow_up);
    assert_eq!(r2.text, "Make one application right now");
}

#[test]
fn forced_done_grants_apply_rewards() {
    let mut u = User::default();
    let r = handle_token(&mut u, "forced_done", "t").expect("known token");
    assert_eq!(u.xp, 20);
    assert_eq!(u.gold, 1);
    assert_eq!(r.text, "Counted");
    assert_eq!(r.menu, MenuKind::Main);
}

#[test]
fn forced_done_clears_pending_prompt() {
    let mut u = User::default();
    u.awaiting_ping = true;
    handle_token(&mut u, "forced_done", "t").expect("known token");
    assert!(!u.awaiting_ping);
    assert_eq!(u.xp, 20);
}

#[test]
fn log_view_joins_newest_first() {
    let mut u = User::default();
    u.log = vec!["second".to_string(), "first".to_string()];
    let r = handle_token(&mut u, "log", "t").expect("known token");
    assert_eq!(r.text, "Log\n\nsecond\nfirst");
}

#[test]
fn join_lines_matches_expectation() {
    assert_eq!(join_lines(&vec![]), "");
    assert_eq!(join_lines(&vec!["a".to_string()]), "a");
    assert_eq!(join_lines(&vec!["a".to_string(), "b".to_string(), "c".to_string()]), "a\nb\nc");
}

#[test]
fn str_eq_compares_contents() {
    assert!(str_eq("profile", "profile"));
    assert!(!str_eq("profile", "profil"));
    assert!(!str_eq("a", "b"));
    assert!(str_eq("résumé ✉", "résumé ✉"));
    assert!(!str_eq("résumé", "resume"));
}

#[test]
fn clocked_callback_applies_quest() {
    let mut u = User::default();
    let r = handle_callback(&mut u, "q_apply").expect("known token");
    assert_eq!(u.xp, 20);
    assert_eq!(u.gold, 1);
    assert_eq!(r.menu, MenuKind::Quests);
    assert!(u.log[0].ends_with(" - Apply (+20 XP, +1 gold)"));
}

#[test]
fn menus_carry_expected_tokens() {
    let m = main_menu();
    assert_eq!(m.len(), 2);
    assert_eq!(m[0][0].token, "profile");
    assert_eq!(m[0][1].token, "quests");
    assert_eq!(m[1][0].token, "log");
    assert_eq!(m[1][1].token, "notes");

    let q = quest_menu();
    assert_eq!(q[0][0].token, "q_apply");
    assert_eq!(q[3][0].token, "back");

    assert_eq!(notes_menu()[0][0].token, "add_note");
    assert_eq!(reminder_menu()[0][1].token, "nothing");
    assert_eq!(force_menu()[0][0].token, "forced_done");
    assert_eq!(force_menu()[0][0].label, "Done");
}
