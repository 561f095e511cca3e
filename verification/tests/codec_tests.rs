use timers_tui::app::App;
use timers_tui::codec::u64_to_string;
use timers_tui::timer::TimerState;

#[test]
fn u64_to_string_writes_decimal_digits() {
    assert_eq!(u64_to_string(0), "0");
    assert_eq!(u64_to_string(7), "7");
    assert_eq!(u64_to_string(42), "42");
    assert_eq!(u64_to_string(3600000), "3600000");
    assert_eq!(u64_to_string(u64::MAX), "18446744073709551615");
}

#[test]
fn dump_of_empty_collection_is_empty_array() {
    let app = App::new(true);
    assert_eq!(app.dump_json(), "[]");
}

#[test]
fn dump_of_one_timer_has_exact_shape() {
    let mut app = App::new(true);
    app.add_default_timer();
    assert_eq!(
        app.dump_json(),
        "[{\"description\":\"New Timer\",\"length\":300,\"time_left\":300}]"
    );
}

#[test]
fn dump_escapes_quotes_and_backslashes() {
    let mut app = App::new(true);
    app.add_default_timer();
    app.timers[0].serializeable_parts.description = String::from("a\"b\\c");
    assert_eq!(
        app.dump_json(),
        "[{\"description\":\"a\\\"b\\\\c\",\"length\":300,\"time_left\":300}]"
    );
}

#[test]
fn read_from_json_appends_stopped_timers() {
    let mut app = App::new(true);
    let r = app.read_from_json(
        "[{\"description\":\"tea\",\"length\":240,\"time_left\":120},\
         {\"description\":\"egg\",\"length\":450,\"time_left\":450}]",
    );
    assert!(r.is_ok());
    assert_eq!(app.timers.len(), 2);
    assert_eq!(app.selected_timer, Some(0));
    assert_eq!(app.timers[0].clone_description(), "tea");
    assert_eq!(app.timers[0].get_length(), 240);
    assert_eq!(app.timers[0].get_time_left(), 120);
    assert_eq!(app.timers[0].time_left_at_last_tick, 120);
    assert!(matches!(app.timers[0].state, TimerState::Stopped));
    assert_eq!(app.timers[1].clone_description(), "egg");
    assert_eq!(app.timers[1].get_length(), 450);
}

#[test]
fn read_accepts_whitespace_between_tokens() {
    let mut app = App::new(true);
    let r = app.read_from_json(
        "  [ { \"description\" : \"tea\" ,\n \"length\" : 240 ,\t \"time_left\" : 120 } ]\n",
    );
    assert!(r.is_ok());
    assert_eq!(app.timers.len(), 1);
    assert_eq!(app.timers[0].get_time_left(), 120);
}

#[test]
fn read_unescapes_quotes_and_backslashes() {
    let mut app = App::new(true);
    let r = app.read_from_json(
        "[{\"description\":\"a\\\"b\\\\c\",\"length\":10,\"time_left\":10}]",
    );
    assert!(r.is_ok());
    assert_eq!(app.timers[0].clone_description(), "a\"b\\c");
}

#[test]
fn read_clamps_time_left_to_length() {
    let mut app = App::new(true);
    let r = app.read_from_json("[{\"description\":\"x\",\"length\":50,\"time_left\":80}]");
    assert!(r.is_ok());
    assert_eq!(app.timers[0].get_time_left(), 50);
}

#[test]
fn read_of_empty_array_adds_nothing() {
    let mut app = App::new(true);
    let r = app.read_from_json(" [ ] ");
    assert!(r.is_ok());
    assert!(app.timers.is_empty());
    assert!(app.selected_timer.is_none());
}

#[test]
fn malformed_text_is_rejected_and_changes_nothing() {
    let cases = [
        "",
        "[",
        "]",
        "[{]",
        "[{\"description\":\"x\",\"length\":5,\"time_left\":5}",
        "[{\"description\":\"x\",\"length\":5,\"time_left\":5}] trailing",
        "[{\"length\":5,\"time_left\":5,\"description\":\"x\"}]",
        "[{\"description\":\"x\",\"length\":,\"time_left\":5}]",
        "[{\"description\":\"x\",\"length\":5,\"time_left\":5},]",
        "[{\"description\":\"x\\q\",\"length\":5,\"time_left\":5}]",
        "[{\"description\":\"x\",\"length\":99999999999999999999999,\"time_left\":5}]",
        "{\"description\":\"x\",\"length\":5,\"time_left\":5}",
    ];
    for text in cases {
        let mut app = App::new(true);
        app.add_default_timer();
        let r = app.read_from_json(text);
        assert!(r.is_err(), "accepted: {}", text);
        assert_eq!(app.timers.len(), 1);
        assert_eq!(app.timers[0].get_length(), 300);
    }
}

#[test]
fn largest_second_counts_survive_the_trip() {
    let mut app = App::new(true);
    let text = format!(
        "[{{\"description\":\"big\",\"length\":{},\"time_left\":{}}}]",
        u64::MAX,
        u64::MAX
    );
    let r = app.read_from_json(&text);
    assert!(r.is_ok());
    assert_eq!(app.timers[0].get_length(), u64::MAX);
    assert_eq!(app.dump_json(), text);
}

#[test]
fn persist_and_reload_reproduces_the_collection() {
    let mut app = App::new(true);
    // one stopped, one running with time consumed, one alarming
    app.read_from_json(
        "[{\"description\":\"tea\",\"length\":240,\"time_left\":240},\
          {\"description\":\"egg\",\"length\":450,\"time_left\":450},\
          {\"description\":\"nap\",\"length\":5,\"time_left\":5}]",
    )
    .unwrap();
    app.start_timer(0);
    app.update_timers(30);
    app.selected_timer = Some(2);
    app.start_timer(100);
    app.update_timers(200);
    assert!(matches!(app.timers[2].state, TimerState::Alarming));

    let saved = app.dump_json();
    let mut reloaded = App::new(true);
    reloaded.read_from_json(&saved).unwrap();

    assert_eq!(reloaded.timers.len(), app.timers.len());
    for i in 0..app.timers.len() {
        assert_eq!(
            reloaded.timers[i].clone_description(),
            app.timers[i].clone_description()
        );
        assert_eq!(reloaded.timers[i].get_length(), app.timers[i].get_length());
        assert_eq!(
            reloaded.timers[i].get_time_left(),
            app.timers[i].get_time_left()
        );
        // in-flight state is never persisted: everything revives Stopped
        assert!(matches!(reloaded.timers[i].state, TimerState::Stopped));
        assert!(reloaded.timers[i].last_started.is_none());
    }
    assert_eq!(reloaded.timers[0].get_time_left(), 40);
    assert_eq!(reloaded.timers[2].get_time_left(), 0);
}
