//! Reminders and recurring jobs.
use tttt::scheduler::{parse_interval, BusyPolicy, Scheduler, SchedulerEvent};
use tttt::time::{Duration, Instant};

fn epoch() -> Instant {
    Instant { nanos: 7_000_000_000 }
}

#[test]
fn test_add_reminder() {
    let e = epoch();
    let mut sched = Scheduler::with_epoch(e);
    let id = sched.add_reminder("test".to_string(), e.plus(Duration::from_secs(10)));
    assert_eq!(id, "reminder-1");
    assert_eq!(sched.reminder_count(), 1);
}

#[test]
fn test_reminder_fires_at_correct_time() {
    let e = epoch();
    let mut sched = Scheduler::with_epoch(e);
    sched.add_reminder("hello".to_string(), e.plus(Duration::from_secs(5)));

    // Not yet
    let events = sched.tick(e.plus(Duration::from_secs(3)));
    assert!(events.is_empty());

    // Now
    let events = sched.tick(e.plus(Duration::from_secs(5)));
    assert_eq!(events.len(), 1);
    match &events[0] {
        SchedulerEvent::ReminderFired(r) => assert_eq!(r.message, "hello"),
        _ => panic!("expected ReminderFired"),
    }
}

#[test]
fn test_reminder_not_premature() {
    let e = epoch();
    let mut sched = Scheduler::with_epoch(e);
    sched.add_reminder("future".to_string(), e.plus(Duration::from_secs(100)));
    let events = sched.tick(e.plus(Duration::from_secs(50)));
    assert!(events.is_empty());
    assert_eq!(sched.reminder_count(), 1);
}

#[test]
fn test_reminder_consumed_after_fire() {
    let e = epoch();
    let mut sched = Scheduler::with_epoch(e);
    sched.add_reminder("once".to_string(), e.plus(Duration::from_secs(1)));
    sched.tick(e.plus(Duration::from_secs(2)));
    assert_eq!(sched.reminder_count(), 0);
    // Second tick should not fire again
    let events = sched.tick(e.plus(Duration::from_secs(3)));
    assert!(events.is_empty());
}

#[test]
fn test_multiple_reminders_ordered() {
    let e = epoch();
    let mut sched = Scheduler::with_epoch(e);
    sched.add_reminder("second".to_string(), e.plus(Duration::from_secs(20)));
    sched.add_reminder("first".to_string(), e.plus(Duration::from_secs(10)));
    sched.add_reminder("third".to_string(), e.plus(Duration::from_secs(30)));

    let events = sched.tick(e.plus(Duration::from_secs(25)));
    assert_eq!(events.len(), 2);
    match &events[0] {
        SchedulerEvent::ReminderFired(r) => assert_eq!(r.message, "first"),
        _ => panic!("expected first"),
    }
    match &events[1] {
        SchedulerEvent::ReminderFired(r) => assert_eq!(r.message, "second"),
        _ => panic!("expected second"),
    }
}

#[test]
fn test_add_cron_valid() {
    let e = epoch();
    let mut sched = Scheduler::with_epoch(e);
    let id = sched
        .add_cron("10s".to_string(), "check".to_string(), None, BusyPolicy::Drop, e)
        .unwrap();
    assert_eq!(id, "cron-1");
    assert_eq!(sched.cron_count(), 1);
}

#[test]
fn test_add_cron_invalid() {
    let e = epoch();
    let mut sched = Scheduler::with_epoch(e);
    let result = sched.add_cron("invalid!!!".to_string(), "x".to_string(), None, BusyPolicy::Drop, e);
    assert!(result.is_err());
}

#[test]
fn test_remove_cron() {
    let e = epoch();
    let mut sched = Scheduler::with_epoch(e);
    let id = sched
        .add_cron("10s".to_string(), "x".to_string(), None, BusyPolicy::Drop, e)
        .unwrap();
    sched.remove_cron(&id).unwrap();
    assert_eq!(sched.cron_count(), 0);
}

#[test]
fn test_remove_cron_not_found() {
    let mut sched = Scheduler::new();
    assert!(sched.remove_cron("nope").is_err());
}

#[test]
fn test_list_cron() {
    let e = epoch();
    let mut sched = Scheduler::with_epoch(e);
    sched.add_cron("10s".to_string(), "a".to_string(), None, BusyPolicy::Drop, e).unwrap();
    sched.add_cron("20s".to_string(), "b".to_string(), None, BusyPolicy::Drop, e).unwrap();
    assert_eq!(sched.list_cron().len(), 2);
}

#[test]
fn test_cron_fires_on_schedule() {
    let e = epoch();
    let mut sched = Scheduler::with_epoch(e);
    sched
        .add_cron("10s".to_string(), "ping".to_string(), None, BusyPolicy::Drop, e)
        .unwrap();

    // Not yet
    let events = sched.tick(e.plus(Duration::from_secs(5)));
    assert!(events.is_empty());

    // Fire
    let events = sched.tick(e.plus(Duration::from_secs(10)));
    assert_eq!(events.len(), 1);
    match &events[0] {
        SchedulerEvent::CronFired(j) => assert_eq!(j.command, "ping"),
        _ => panic!("expected CronFired"),
    }
}

#[test]
fn test_cron_recurs() {
    let e = epoch();
    let mut sched = Scheduler::with_epoch(e);
    sched
        .add_cron("5s".to_string(), "tick".to_string(), None, BusyPolicy::Drop, e)
        .unwrap();

    // First fire
    let events = sched.tick(e.plus(Duration::from_secs(5)));
    assert_eq!(events.len(), 1);

    // Should not fire at +7
    let events = sched.tick(e.plus(Duration::from_secs(7)));
    assert!(events.is_empty());

    // Should fire again at +10
    let events = sched.tick(e.plus(Duration::from_secs(10)));
    assert_eq!(events.len(), 1);
}

#[test]
fn test_next_wake_empty() {
    let sched = Scheduler::new();
    assert!(sched.next_wake().is_none());
}

#[test]
fn test_next_wake_reminder() {
    let e = epoch();
    let mut sched = Scheduler::with_epoch(e);
    sched.add_reminder("a".to_string(), e.plus(Duration::from_secs(10)));
    sched.add_reminder("b".to_string(), e.plus(Duration::from_secs(5)));
    let wake = sched.next_wake().unwrap();
    // Should be the earlier one
    assert!(wake <= e.plus(Duration::from_secs(5)).plus(Duration::from_millis(1)));
}

#[test]
fn test_next_wake_cron() {
    let e = epoch();
    let mut sched = Scheduler::with_epoch(e);
    sched
        .add_cron("10s".to_string(), "x".to_string(), None, BusyPolicy::Drop, e)
        .unwrap();
    let wake = sched.next_wake().unwrap();
    assert!(wake <= e.plus(Duration::from_secs(10)).plus(Duration::from_millis(1)));
}

#[test]
fn test_parse_interval_seconds() {
    assert_eq!(parse_interval("10s").unwrap(), Duration::from_secs(10));
}

#[test]
fn test_parse_interval_minutes() {
    assert_eq!(parse_interval("5m").unwrap(), Duration::from_secs(300));
}

#[test]
fn test_parse_interval_hours() {
    assert_eq!(parse_interval("2h").unwrap(), Duration::from_secs(7200));
}

#[test]
fn test_parse_interval_cron_shorthand() {
    assert_eq!(parse_interval("*/5").unwrap(), Duration::from_secs(300));
}

#[test]
fn test_parse_interval_cron_5_field() {
    // "*/1 * * * *" = every 1 minute
    assert_eq!(parse_interval("*/1 * * * *").unwrap(), Duration::from_secs(60));
    // "*/5 * * * *" = every 5 minutes
    assert_eq!(parse_interval("*/5 * * * *").unwrap(), Duration::from_secs(300));
    // "*/30 * * * *" = every 30 minutes
    assert_eq!(parse_interval("*/30 * * * *").unwrap(), Duration::from_secs(1800));
}

#[test]
fn test_parse_interval_human_seconds() {
    assert_eq!(parse_interval("every 30 seconds").unwrap(), Duration::from_secs(30));
    assert_eq!(parse_interval("every 1 second").unwrap(), Duration::from_secs(1));
    assert_eq!(parse_interval("every 10 secs").unwrap(), Duration::from_secs(10));
    assert_eq!(parse_interval("every 5 s").unwrap(), Duration::from_secs(5));
}

#[test]
fn test_parse_interval_human_minutes() {
    assert_eq!(parse_interval("every 1 minute").unwrap(), Duration::from_secs(60));
    assert_eq!(parse_interval("every 2 minutes").unwrap(), Duration::from_secs(120));
    assert_eq!(parse_interval("every 5 min").unwrap(), Duration::from_secs(300));
}

#[test]
fn test_parse_interval_human_hours() {
    assert_eq!(parse_interval("every 1 hour").unwrap(), Duration::from_secs(3600));
    assert_eq!(parse_interval("every 2 hours").unwrap(), Duration::from_secs(7200));
}

#[test]
fn test_parse_interval_invalid() {
    assert!(parse_interval("abc").is_err());
    assert!(parse_interval("").is_err());
    // Unsupported cron patterns
    assert!(parse_interval("0 12 * * *").is_err());
}

#[test]
fn test_scheduler_default() {
    let sched = Scheduler::default();
    assert_eq!(sched.reminder_count(), 0);
    assert_eq!(sched.cron_count(), 0);
}

#[test]
fn reminders_do_not_fire_before_their_time() {
    let e = epoch();
    let micros = |n: u128| Instant { nanos: e.nanos + n * 1_000 };
    let mut sched = Scheduler::with_epoch(e);
    sched.add_reminder("a".to_string(), micros(1_500));
    assert_eq!(sched.next_wake(), Some(micros(1_500)));
    assert!(sched.tick(micros(1_000)).is_empty());
    assert_eq!(sched.reminder_count(), 1);
    assert!(sched.tick(micros(1_499)).is_empty());
    assert_eq!(sched.tick(micros(1_500)).len(), 1);
    assert_eq!(sched.reminder_count(), 0);
    assert_eq!(sched.next_wake(), None);
}

#[test]
fn calls_are_counted() {
    let e = epoch();
    let at = |s: u64| e.plus(Duration::from_secs(s));
    let mut sched = Scheduler::with_epoch(e);
    for s in [5, 1, 9] {
        sched.add_reminder("m".to_string(), at(s));
    }
    let add = |sched: &mut Scheduler, expression: &str| {
        sched.add_cron(expression.to_string(), "c".to_string(), None, BusyPolicy::Drop, at(0))
    };
    assert_eq!(add(&mut sched, "10s").unwrap(), "cron-1");
    assert!(add(&mut sched, "never").is_err());
    assert_eq!(add(&mut sched, "20s").unwrap(), "cron-2");
    sched.tick(at(5));
    assert_eq!(sched.reminder_count(), 1);
    assert_eq!(sched.add_reminder("n".to_string(), at(1)), "reminder-4");
    assert_eq!(sched.reminder_count(), 2);
    sched.remove_cron("cron-1").unwrap();
    assert!(sched.remove_cron("cron-1").is_err());
    assert_eq!(add(&mut sched, "30s").unwrap(), "cron-3");
    assert_eq!(sched.cron_count(), 2);
    assert_eq!(sched.list_cron().len(), 2);
}
