use svoote::config::STATS_UPDATE_THROTTLE_MILLIS;
use svoote::host::{host_command_slide_index, site_stats_outdated, StatsThrottle, IDLE_TIMEOUT_MILLIS};

#[test]
fn goto_slide_commands_name_a_slide() {
    assert_eq!(host_command_slide_index("gotoSlide", Some(3)), Some(3));
    assert_eq!(host_command_slide_index("gotoSlide", None), Some(0));
    assert_eq!(host_command_slide_index("startPoll", Some(3)), None);
    assert_eq!(host_command_slide_index("", None), None);
}

#[test]
fn statistics_updates_are_throttled() {
    let mut t = StatsThrottle::new();
    assert_eq!(t.timeout_millis(0), IDLE_TIMEOUT_MILLIS);
    // the first update, well after the start, goes out at once
    assert!(t.on_stats_update(STATS_UPDATE_THROTTLE_MILLIS + 1));
    assert_eq!(t.last_sent_millis, STATS_UPDATE_THROTTLE_MILLIS + 1);
    // the next one, 500 ms later, is held back
    let now = STATS_UPDATE_THROTTLE_MILLIS + 501;
    assert!(!t.on_stats_update(now));
    assert!(t.pending);
    assert_eq!(t.timeout_millis(now), STATS_UPDATE_THROTTLE_MILLIS - 500);
    // and so is a third, which replaces it
    assert!(!t.on_stats_update(now + 100));
    assert_eq!(t.timeout_millis(now + 100), STATS_UPDATE_THROTTLE_MILLIS - 600);
    // when the timer fires the held back update is sent
    assert!(t.on_timer(2 * STATS_UPDATE_THROTTLE_MILLIS + 1));
    assert!(!t.pending);
    assert_eq!(t.last_sent_millis, 2 * STATS_UPDATE_THROTTLE_MILLIS + 1);
    assert!(!t.on_timer(2 * STATS_UPDATE_THROTTLE_MILLIS + 5));
    assert_eq!(t.timeout_millis(0), IDLE_TIMEOUT_MILLIS);
}

#[test]
fn an_overdue_held_back_update_is_due_at_once() {
    let mut t = StatsThrottle::new();
    assert!(!t.on_stats_update(10));
    assert_eq!(t.timeout_millis(10), STATS_UPDATE_THROTTLE_MILLIS - 10);
    assert_eq!(t.timeout_millis(5 * STATS_UPDATE_THROTTLE_MILLIS), 0);
}

#[test]
fn site_statistics_are_cached_for_five_seconds() {
    assert!(site_stats_outdated(None, 0));
    assert!(!site_stats_outdated(Some(1000), 1000));
    assert!(!site_stats_outdated(Some(1000), 5999));
    assert!(site_stats_outdated(Some(1000), 6000));
    assert!(!site_stats_outdated(Some(1000), 10));
}

#[test]
fn a_held_back_update_is_due_a_throttle_interval_after_the_last() {
    let mut t = StatsThrottle::new();
    assert!(t.on_stats_update(5000));
    assert!(!t.on_stats_update(5300));
    let fire = 5300 + t.timeout_millis(5300);
    assert_eq!(fire, 5000 + STATS_UPDATE_THROTTLE_MILLIS);
    assert!(t.on_timer(fire));
    assert_eq!(t.last_sent_millis, 7000);
}

#[test]
fn a_timer_that_fires_early_sends_nothing_yet() {
    let mut t = StatsThrottle::new();
    assert!(t.on_stats_update(5000));
    assert!(!t.on_stats_update(5100));
    assert!(!t.on_timer(6000));
    assert!(t.pending);
    assert!(t.on_timer(7000));
    assert_eq!(t.last_sent_millis, 7000);
}
