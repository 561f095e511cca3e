use timers_tui::timer::SerializeableTimerParts;
use timers_tui::timer::Timer;
use timers_tui::timer::TimerState;

#[test]
fn new_timer_starts_stopped_at_full_length() {
    let t = Timer::new(String::from("tea"), 240);
    assert_eq!(t.clone_description(), "tea");
    assert_eq!(t.get_length(), 240);
    assert_eq!(t.get_time_left(), 240);
    assert!(matches!(t.state, TimerState::Stopped));
    assert!(t.last_started.is_none());
}

#[test]
fn default_timer_is_five_minutes() {
    let t = Timer::default();
    assert_eq!(t.clone_description(), "New Timer");
    assert_eq!(t.get_length(), 300);
    assert_eq!(t.get_time_left(), 300);
    assert!(matches!(t.state, TimerState::Stopped));
}

#[test]
fn from_serializeable_seeds_time_left() {
    let parts = SerializeableTimerParts::new(String::from("loaded"), 100, 40);
    let t = Timer::from_serializeable(parts);
    assert_eq!(t.get_length(), 100);
    assert_eq!(t.get_time_left(), 40);
    assert_eq!(t.time_left_at_last_tick, 40);
    assert!(matches!(t.state, TimerState::Stopped));
    assert!(t.last_started.is_none());
}

#[test]
fn from_serializeable_clamps_excess_time_left() {
    let parts = SerializeableTimerParts::new(String::from("odd"), 50, 80);
    let t = Timer::from_serializeable(parts);
    assert_eq!(t.get_length(), 50);
    assert_eq!(t.get_time_left(), 50);
}

#[test]
fn tick_ignores_stopped_and_alarming_timers() {
    let mut t = Timer::new(String::from("idle"), 60);
    assert!(!t.tick(1000));
    assert_eq!(t.get_time_left(), 60);
    assert!(matches!(t.state, TimerState::Stopped));

    t.state = TimerState::Alarming;
    assert!(!t.tick(2000));
    assert!(matches!(t.state, TimerState::Alarming));
}

#[test]
fn first_tick_of_running_timer_sets_baseline() {
    let mut t = Timer::new(String::from("run"), 60);
    t.state = TimerState::Running;
    assert!(!t.tick(500));
    assert_eq!(t.last_started, Some(500));
    assert_eq!(t.get_time_left(), 60);
}

#[test]
fn tick_recomputes_from_original_start_instant() {
    let mut t = Timer::new(String::from("run"), 60);
    t.state = TimerState::Running;
    t.last_started = Some(100);
    assert!(!t.tick(110));
    assert_eq!(t.get_time_left(), 50);
    // the baseline is untouched; elapsed time is never accumulated
    assert_eq!(t.time_left_at_last_tick, 60);
    assert!(!t.tick(130));
    assert_eq!(t.get_time_left(), 30);
}

#[test]
fn tick_with_elapsed_equal_to_remaining_alarms() {
    let mut t = Timer::new(String::from("due"), 5);
    t.state = TimerState::Running;
    t.last_started = Some(10);
    assert!(t.tick(15));
    assert!(matches!(t.state, TimerState::Alarming));
    assert_eq!(t.get_time_left(), 0);
}

#[test]
fn tick_past_expiry_alarms_exactly_once() {
    let mut t = Timer::new(String::from("due"), 5);
    t.state = TimerState::Running;
    t.last_started = Some(10);
    assert!(t.tick(100));
    assert!(matches!(t.state, TimerState::Alarming));
    assert_eq!(t.get_time_left(), 0);
    // a later tick reports no further transition
    assert!(!t.tick(200));
    assert!(matches!(t.state, TimerState::Alarming));
    assert_eq!(t.get_time_left(), 0);
}

#[test]
fn tick_with_clock_before_start_leaves_time_untouched() {
    let mut t = Timer::new(String::from("skew"), 60);
    t.state = TimerState::Running;
    t.last_started = Some(1000);
    assert!(!t.tick(900));
    assert_eq!(t.get_time_left(), 60);
}
