use timers_tui::alarm::AudioAction;
use timers_tui::app::App;
use timers_tui::app::AppScreen;
use timers_tui::app::ErrorType;
use timers_tui::app::Key;
use timers_tui::edit::EditField;
use timers_tui::timer::TimerState;

#[test]
fn new_app_is_empty_on_main_screen() {
    let app = App::new(true);
    assert!(app.timers.is_empty());
    assert!(app.selected_timer.is_none());
    assert!(!app.should_quit);
    assert_eq!(app.screen, AppScreen::Main);
    assert!(app.successful_init);
    assert_eq!(app.alarm_counter.alarming_timers, 0);
}

#[test]
fn add_default_timer_selects_first_only_when_empty() {
    let mut app = App::new(true);
    app.add_default_timer();
    assert_eq!(app.selected_timer, Some(0));
    app.increment_selection();
    app.add_default_timer();
    app.add_default_timer();
    // an existing selection is kept
    assert_eq!(app.selected_timer, Some(0));
    assert_eq!(app.timers.len(), 3);
}

#[test]
fn add_new_timer_opens_editor_on_new_last_timer() {
    let mut app = App::new(true);
    app.add_default_timer();
    app.add_new_timer();
    assert_eq!(app.timers.len(), 2);
    assert_eq!(app.selected_timer, Some(1));
    assert_eq!(app.screen, AppScreen::Editing(EditField::Description));
    assert_eq!(app.edit_values.descript, "New Timer");
    assert_eq!(app.timers[1].get_length(), 300);
}

#[test]
fn selection_wraps_in_both_directions() {
    let mut app = App::new(true);
    for _ in 0..3 {
        app.add_default_timer();
    }
    assert_eq!(app.selected_timer, Some(0));
    app.decrement_selection();
    assert_eq!(app.selected_timer, Some(2));
    app.increment_selection();
    assert_eq!(app.selected_timer, Some(0));
    app.increment_selection();
    assert_eq!(app.selected_timer, Some(1));
}

#[test]
fn selection_moves_ignore_empty_collection() {
    let mut app = App::new(true);
    app.increment_selection();
    app.decrement_selection();
    assert!(app.selected_timer.is_none());
    assert_eq!(app.delete_timer(), AudioAction::Nothing);
}

#[test]
fn deleting_last_selected_timer_selects_previous() {
    let mut app = App::new(true);
    for _ in 0..3 {
        app.add_default_timer();
    }
    app.selected_timer = Some(2);
    app.delete_timer();
    // index N-1 was deleted from N timers: N-2 is selected
    assert_eq!(app.selected_timer, Some(1));
    assert_eq!(app.timers.len(), 2);
}

#[test]
fn deleting_middle_timer_keeps_index() {
    let mut app = App::new(true);
    for _ in 0..3 {
        app.add_default_timer();
    }
    app.selected_timer = Some(1);
    app.delete_timer();
    assert_eq!(app.selected_timer, Some(1));
    assert_eq!(app.timers.len(), 2);
}

#[test]
fn deleting_only_timer_clears_selection() {
    let mut app = App::new(true);
    app.add_default_timer();
    app.delete_timer();
    assert!(app.selected_timer.is_none());
    assert!(app.timers.is_empty());
}

#[test]
fn deleting_alarming_timer_releases_its_alarm() {
    let mut app = App::new(true);
    app.add_default_timer();
    app.timers[0].state = TimerState::Alarming;
    app.alarm_counter.alarming_timers = 1;
    let action = app.delete_timer();
    assert_eq!(action, AudioAction::Pause);
    assert_eq!(app.alarm_counter.alarming_timers, 0);
}

#[test]
fn start_pause_updates_state_and_baseline() {
    let mut app = App::new(true);
    app.add_default_timer();
    app.start_timer(100);
    assert!(matches!(app.timers[0].state, TimerState::Running));
    assert_eq!(app.timers[0].last_started, Some(100));
    app.update_timers(160);
    assert_eq!(app.timers[0].get_time_left(), 240);
    let action = app.pause_timer(160);
    assert_eq!(action, AudioAction::Nothing);
    assert!(matches!(app.timers[0].state, TimerState::Stopped));
    // pausing snapshots the remaining time as the new baseline
    assert_eq!(app.timers[0].time_left_at_last_tick, 240);
}

#[test]
fn update_timers_raises_alarm_and_starts_playback_once() {
    let mut app = App::new(true);
    app.add_default_timer();
    app.timers[0].serializeable_parts.length = 5;
    app.timers[0].serializeable_parts.time_left = 5;
    app.timers[0].time_left_at_last_tick = 5;
    app.start_timer(10);
    let action = app.update_timers(15);
    assert_eq!(action, AudioAction::Play);
    assert!(matches!(app.timers[0].state, TimerState::Alarming));
    assert_eq!(app.timers[0].get_time_left(), 0);
    assert_eq!(app.alarm_counter.alarming_timers, 1);
    // the transition happens exactly once
    let again = app.update_timers(20);
    assert_eq!(again, AudioAction::Nothing);
    assert_eq!(app.alarm_counter.alarming_timers, 1);
}

#[test]
fn pause_dismisses_alarm_and_restores_length() {
    let mut app = App::new(true);
    app.add_default_timer();
    app.timers[0].serializeable_parts.length = 5;
    app.timers[0].serializeable_parts.time_left = 5;
    app.timers[0].time_left_at_last_tick = 5;
    app.start_timer(10);
    app.update_timers(30);
    assert_eq!(app.alarm_counter.alarming_timers, 1);
    let action = app.pause_timer(31);
    assert_eq!(action, AudioAction::Pause);
    assert_eq!(app.alarm_counter.alarming_timers, 0);
    assert!(matches!(app.timers[0].state, TimerState::Stopped));
    assert_eq!(app.timers[0].get_time_left(), 5);
    assert!(app.timers[0].last_started.is_none());
}

#[test]
fn reset_dismisses_alarm_and_restores_length() {
    let mut app = App::new(true);
    app.add_default_timer();
    app.timers[0].serializeable_parts.length = 7;
    app.timers[0].serializeable_parts.time_left = 7;
    app.timers[0].time_left_at_last_tick = 7;
    app.start_timer(0);
    app.update_timers(100);
    assert_eq!(app.alarm_counter.alarming_timers, 1);
    let action = app.reset_timer();
    assert_eq!(action, AudioAction::Pause);
    assert_eq!(app.alarm_counter.alarming_timers, 0);
    assert_eq!(app.timers[0].get_time_left(), 7);
    assert!(matches!(app.timers[0].state, TimerState::Stopped));
}

#[test]
fn reset_of_stopped_timer_restores_length() {
    let mut app = App::new(true);
    app.add_default_timer();
    app.start_timer(0);
    app.update_timers(60);
    app.pause_timer(60);
    assert_eq!(app.timers[0].get_time_left(), 240);
    app.reset_timer();
    assert_eq!(app.timers[0].get_time_left(), 300);
    assert_eq!(app.timers[0].time_left_at_last_tick, 300);
}

#[test]
fn reset_leaves_running_timer_alone() {
    let mut app = App::new(true);
    app.add_default_timer();
    app.start_timer(0);
    app.update_timers(60);
    app.reset_timer();
    assert!(matches!(app.timers[0].state, TimerState::Running));
    assert_eq!(app.timers[0].get_time_left(), 240);
}

#[test]
fn toggle_starts_and_pauses_but_never_dismisses() {
    let mut app = App::new(true);
    app.add_default_timer();
    app.toggle_timer(5);
    assert!(matches!(app.timers[0].state, TimerState::Running));
    app.toggle_timer(10);
    assert!(matches!(app.timers[0].state, TimerState::Stopped));
    app.timers[0].state = TimerState::Alarming;
    app.alarm_counter.alarming_timers = 1;
    let action = app.toggle_timer(20);
    assert_eq!(action, AudioAction::Nothing);
    assert!(matches!(app.timers[0].state, TimerState::Alarming));
    assert_eq!(app.alarm_counter.alarming_timers, 1);
}

#[test]
fn time_left_never_exceeds_length() {
    let mut app = App::new(true);
    app.add_default_timer();
    app.start_timer(0);
    for now in [0u64, 10, 100, 299, 300, 301, 1000] {
        app.update_timers(now);
        assert!(app.timers[0].get_time_left() <= app.timers[0].get_length());
    }
    app.reset_timer();
    assert!(app.timers[0].get_time_left() <= app.timers[0].get_length());
}

#[test]
fn quit_key_on_main_screen() {
    let mut app = App::new(true);
    app.handle_key(Key::Char('q'), 0);
    assert!(app.should_quit);
}

#[test]
fn unrecognised_keys_are_ignored() {
    let mut app = App::new(true);
    app.handle_key(Key::Char('x'), 0);
    app.handle_key(Key::Enter, 0);
    app.handle_key(Key::Tab, 0);
    assert!(!app.should_quit);
    assert!(app.timers.is_empty());
    assert_eq!(app.screen, AppScreen::Main);
}

#[test]
fn digit_entry_sets_field_and_advances() {
    let mut app = App::new(true);
    app.handle_key(Key::Char('a'), 0);
    assert_eq!(app.screen, AppScreen::Editing(EditField::Description));
    app.handle_key(Key::Tab, 0);
    assert_eq!(app.screen, AppScreen::Editing(EditField::Hours1));
    app.handle_key(Key::Char('1'), 0);
    assert_eq!(app.screen, AppScreen::Editing(EditField::Hours2));
    assert_eq!(app.edit_values.hours1.value_as_string(), "1");
    // an out-of-range digit clamps against the field's modulus
    app.handle_key(Key::Tab, 0);
    app.handle_key(Key::Tab, 0);
    assert_eq!(app.screen, AppScreen::Editing(EditField::Minutes1));
    app.handle_key(Key::Char('9'), 0);
    assert_eq!(app.edit_values.minutes1.value_as_string(), "5");
}

#[test]
fn increment_and_decrement_keys_adjust_fields() {
    let mut app = App::new(true);
    app.handle_key(Key::Char('a'), 0);
    app.handle_key(Key::Tab, 0);
    app.handle_key(Key::Char('k'), 0);
    app.handle_key(Key::Char('k'), 0);
    assert_eq!(app.edit_values.hours1.value_as_string(), "2");
    app.handle_key(Key::Char('j'), 0);
    assert_eq!(app.edit_values.hours1.value_as_string(), "1");
}

#[test]
fn field_navigation_keys_move_both_ways() {
    let mut app = App::new(true);
    app.handle_key(Key::Char('a'), 0);
    app.handle_key(Key::Tab, 0);
    app.handle_key(Key::Char('l'), 0);
    assert_eq!(app.screen, AppScreen::Editing(EditField::Hours2));
    app.handle_key(Key::Char('h'), 0);
    assert_eq!(app.screen, AppScreen::Editing(EditField::Hours1));
    app.handle_key(Key::BackTab, 0);
    assert_eq!(app.screen, AppScreen::Editing(EditField::Description));
    app.handle_key(Key::BackTab, 0);
    assert_eq!(app.screen, AppScreen::Editing(EditField::Seconds2));
}

#[test]
fn committing_an_edit_replaces_the_timer() {
    let mut app = App::new(true);
    app.handle_key(Key::Char('a'), 0);
    // clear the default description and name it anew
    for _ in 0.."New Timer".len() {
        app.handle_key(Key::Backspace, 0);
    }
    app.handle_key(Key::Char('e'), 0);
    app.handle_key(Key::Char('g'), 0);
    app.handle_key(Key::Char('g'), 0);
    // hours 000, minutes 07, seconds 30
    app.handle_key(Key::Tab, 0);
    app.handle_key(Key::Char('0'), 0);
    app.handle_key(Key::Char('0'), 0);
    app.handle_key(Key::Char('0'), 0);
    app.handle_key(Key::Char('0'), 0);
    app.handle_key(Key::Char('7'), 0);
    app.handle_key(Key::Char('3'), 0);
    app.handle_key(Key::Char('0'), 0);
    app.handle_key(Key::Enter, 0);
    assert_eq!(app.screen, AppScreen::Main);
    assert_eq!(app.timers[0].clone_description(), "egg");
    assert_eq!(app.timers[0].get_length(), 450);
    assert_eq!(app.timers[0].get_time_left(), 450);
    assert!(matches!(app.timers[0].state, TimerState::Stopped));
}

#[test]
fn replacing_an_alarming_timer_releases_its_alarm() {
    let mut app = App::new(true);
    app.add_default_timer();
    app.timers[0].state = TimerState::Alarming;
    app.alarm_counter.alarming_timers = 1;
    app.handle_key(Key::Char('e'), 0);
    assert_eq!(app.screen, AppScreen::Editing(EditField::Description));
    let action = app.handle_key(Key::Enter, 0);
    assert_eq!(action, AudioAction::Pause);
    assert_eq!(app.alarm_counter.alarming_timers, 0);
    assert!(matches!(app.timers[0].state, TimerState::Stopped));
}

#[test]
fn editing_snapshots_the_selected_timer() {
    let mut app = App::new(true);
    app.add_default_timer();
    app.handle_key(Key::Char('e'), 0);
    assert_eq!(app.screen, AppScreen::Editing(EditField::Description));
    assert_eq!(app.edit_values.descript, "New Timer");
    assert_eq!(app.edit_values.to_duration(), 300);
}

#[test]
fn deleting_first_of_two_keeps_index_zero() {
    let mut app = App::new(true);
    app.add_default_timer();
    app.add_default_timer();
    app.delete_timer();
    assert_eq!(app.selected_timer, Some(0));
    assert_eq!(app.timers.len(), 1);
}

#[test]
fn error_screen_only_quits_or_returns_to_main() {
    let mut app = App::new(true);
    app.screen = AppScreen::Error(ErrorType::SoundDevice);
    app.handle_key(Key::Char('a'), 0);
    assert!(app.timers.is_empty());
    app.handle_key(Key::Enter, 0);
    assert_eq!(app.screen, AppScreen::Main);
    app.screen = AppScreen::Error(ErrorType::File);
    app.handle_key(Key::Char('q'), 0);
    assert!(app.should_quit);
}

#[test]
fn navigating_screen_ignores_keys() {
    let mut app = App::new(true);
    app.screen = AppScreen::Navigating;
    app.handle_key(Key::Char('q'), 0);
    app.handle_key(Key::Char('a'), 0);
    assert!(!app.should_quit);
    assert!(app.timers.is_empty());
    assert_eq!(app.screen, AppScreen::Navigating);
}

#[test]
fn main_screen_keys_drive_selection_and_deletion() {
    let mut app = App::new(true);
    app.add_default_timer();
    app.add_default_timer();
    app.add_default_timer();
    app.handle_key(Key::Char('j'), 0);
    assert_eq!(app.selected_timer, Some(1));
    app.handle_key(Key::Char('k'), 0);
    assert_eq!(app.selected_timer, Some(0));
    app.handle_key(Key::Char('d'), 0);
    assert_eq!(app.timers.len(), 2);
}
