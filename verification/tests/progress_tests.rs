use questbot::progress::{
    add_note_at, complete_quest, complete_quest_at, log, log_at, punish_at, sweep_user,
    sweep_user_at, PING_PENALTY,
};
use questbot::user::{xp_to_next, InputMode, User};

fn fresh() -> User {
    User::default()
}

#[test]
fn threshold_formula() {
    assert_eq!(xp_to_next(1), 100);
    assert_eq!(xp_to_next(2), 200);
    assert_eq!(xp_to_next(10), 1000);
    assert_eq!(xp_to_next(4294967295), 429496729500);
}

#[test]
fn default_record() {
    let u = fresh();
    assert_eq!(u.level, 1);
    assert_eq!(u.xp, 0);
    assert_eq!(u.gold, 0);
    assert!(u.log.is_empty());
    assert!(u.notes.is_empty());
    assert_eq!(u.input, InputMode::Idle);
    assert!(!u.awaiting_ping);
    assert_eq!(u.last_ping_ts, 0);
}

#[test]
fn invariant_after_gain() {
    let mut u = fresh();
    complete_quest_at(&mut u, "Apply", 250, 0, "t");
    assert!(u.level >= 1);
    assert!((u.xp as u64) < (u.level as u64) * 100);
    assert_eq!(u.level, 2);
    assert_eq!(u.xp, 150);
}

#[test]
fn exact_threshold_gain() {
    let mut u = fresh();
    u.level = 3;
    u.xp = 0;
    let r = complete_quest_at(&mut u, "Study", 300, 0, "t");
    assert_eq!(u.level, 4);
    assert_eq!(u.xp, 0);
    assert_eq!(r, Some(4));
}

#[test]
fn single_level_up_with_remainder() {
    let mut u = fresh();
    let r = complete_quest_at(&mut u, "Apply", 150, 0, "t");
    assert_eq!(u.level, 2);
    assert_eq!(u.xp, 50);
    assert_eq!(r, Some(2));
}

#[test]
fn double_level_up_logs_both() {
    let mut u = fresh();
    let r = complete_quest_at(&mut u, "Project", 350, 0, "t");
    assert_eq!(u.level, 3);
    assert_eq!(u.xp, 50);
    assert_eq!(r, Some(3));
    assert_eq!(u.log.len(), 3);
    assert_eq!(u.log[0], "t - Project (+350 XP)");
    assert_eq!(u.log[1], "t - Level up to 3");
    assert_eq!(u.log[2], "t - Level up to 2");
}

#[test]
fn summary_entry_is_newest() {
    let mut u = fresh();
    log_at(&mut u, "t0", "earlier");
    complete_quest_at(&mut u, "Apply", 20, 1, "t1");
    assert_eq!(u.log.len(), 2);
    assert_eq!(u.log[0], "t1 - Apply (+20 XP, +1 gold)");
    assert_eq!(u.log[1], "t0 - earlier");
    assert_eq!(u.gold, 1);
    assert_eq!(u.xp, 20);
    assert_eq!(u.level, 1);
}

#[test]
fn no_level_up_returns_nothing() {
    let mut u = fresh();
    let r = complete_quest_at(&mut u, "Study", 15, 0, "t");
    assert_eq!(r, None);
    assert_eq!(u.level, 1);
    assert_eq!(u.xp, 15);
}

#[test]
fn punish_floors_at_zero() {
    let mut u = fresh();
    u.xp = 30;
    punish_at(&mut u, 50, "t");
    assert_eq!(u.xp, 0);
    assert_eq!(u.level, 1);
    assert_eq!(u.log[0], "t - Procrastination (-50 XP)");
}

#[test]
fn punish_subtracts_exactly() {
    let mut u = fresh();
    u.xp = 80;
    punish_at(&mut u, 20, "t");
    assert_eq!(u.xp, 60);
    assert_eq!(u.log.len(), 1);
}

#[test]
fn note_prepends_and_logs() {
    let mut u = fresh();
    add_note_at(&mut u, "first", "t0");
    u.input = InputMode::AwaitingNote;
    add_note_at(&mut u, "second", "t1");
    assert_eq!(u.notes, vec!["second".to_string(), "first".to_string()]);
    assert_eq!(u.log.len(), 2);
    assert_eq!(u.log[0], "t1 - Note created");
    assert_eq!(u.input, InputMode::Idle);
    assert_eq!(u.level, 1);
    assert_eq!(u.xp, 0);
}

#[test]
fn sweep_penalises_only_ignored_prompt() {
    let mut u = fresh();
    u.xp = 50;
    sweep_user_at(&mut u, 1000, "t");
    assert!(u.awaiting_ping);
    assert_eq!(u.last_ping_ts, 1000);
    assert_eq!(u.xp, 50);
    assert!(u.log.is_empty());

    sweep_user_at(&mut u, 2000, "t2");
    assert!(u.awaiting_ping);
    assert_eq!(u.last_ping_ts, 2000);
    assert_eq!(u.xp, 50 - PING_PENALTY);
    assert_eq!(u.log[0], "t2 - Procrastination (-20 XP)");
}

#[test]
fn clocked_quest_logs_summary() {
    let mut u = fresh();
    let r = complete_quest(&mut u, "Apply", 20, 1);
    assert_eq!(r, None);
    assert_eq!(u.xp, 20);
    assert_eq!(u.gold, 1);
    assert_eq!(u.log.len(), 1);
    assert!(u.log[0].ends_with(" - Apply (+20 XP, +1 gold)"));
}

#[test]
fn clocked_log_prepends_entry() {
    let mut u = fresh();
    log(&mut u, "hello");
    log(&mut u, "again");
    assert_eq!(u.log.len(), 2);
    assert!(u.log[0].ends_with(" - again"));
    assert!(u.log[1].ends_with(" - hello"));
}

#[test]
fn clocked_sweep_sets_prompt() {
    let mut u = fresh();
    sweep_user(&mut u);
    assert!(u.awaiting_ping);
    assert!(u.last_ping_ts > 0);
}
