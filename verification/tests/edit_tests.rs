use timers_tui::edit::EditField;
use timers_tui::edit::EditValue;
use timers_tui::edit::EditValues;
use timers_tui::edit::next_field;
use timers_tui::edit::previous_field;

#[test]
fn set_value_in_range_sets_exactly() {
    let mut ev = EditValue::new(3, 10);
    ev.set_value(7);
    assert_eq!(ev.value_as_string(), "7");
}

#[test]
fn set_value_out_of_range_clamps_to_modulus_minus_one() {
    let mut ev = EditValue::new(3, 10);
    ev.set_value(12);
    assert_eq!(ev.value_as_string(), "9");
    let mut six = EditValue::new(0, 6);
    six.set_value(7);
    assert_eq!(six.value_as_string(), "5");
}

#[test]
fn inc_value_full_cycle_returns_to_start() {
    let mut ev = EditValue::new(4, 6);
    for _ in 0..6 {
        ev.inc_value();
    }
    assert_eq!(ev.value_as_string(), "4");

    let mut ten = EditValue::new(9, 10);
    for _ in 0..10 {
        ten.inc_value();
    }
    assert_eq!(ten.value_as_string(), "9");
}

#[test]
fn dec_value_full_cycle_returns_to_start() {
    let mut ev = EditValue::new(2, 6);
    for _ in 0..6 {
        ev.dec_value();
    }
    assert_eq!(ev.value_as_string(), "2");
}

#[test]
fn inc_then_dec_is_identity() {
    let mut ev = EditValue::new(5, 10);
    ev.inc_value();
    ev.dec_value();
    assert_eq!(ev.value_as_string(), "5");
}

#[test]
fn inc_wraps_at_modulus() {
    let mut ev = EditValue::new(5, 6);
    ev.inc_value();
    assert_eq!(ev.value_as_string(), "0");
}

#[test]
fn dec_wraps_at_zero() {
    let mut ev = EditValue::new(0, 6);
    ev.dec_value();
    assert_eq!(ev.value_as_string(), "5");
}

#[test]
fn edit_values_from_3661_seconds() {
    let ev = EditValues::new(String::from("one of each"), 3661);
    assert_eq!(ev.hours1.value_as_string(), "0");
    assert_eq!(ev.hours2.value_as_string(), "0");
    assert_eq!(ev.hours3.value_as_string(), "1");
    assert_eq!(ev.minutes1.value_as_string(), "0");
    assert_eq!(ev.minutes2.value_as_string(), "1");
    assert_eq!(ev.seconds1.value_as_string(), "0");
    assert_eq!(ev.seconds2.value_as_string(), "1");
    assert_eq!(ev.to_duration(), 3661);
}

#[test]
fn edit_values_roundtrip_other_durations() {
    for secs in [0u64, 59, 60, 61, 3599, 3600, 3599999] {
        let ev = EditValues::new(String::new(), secs);
        assert_eq!(ev.to_duration(), secs);
    }
}

#[test]
fn edit_values_clamp_huge_duration() {
    // a thousand hours does not fit the three hour digits
    let ev = EditValues::new(String::new(), 3_600_000);
    assert_eq!(ev.hours1.value_as_string(), "9");
    assert_eq!(ev.hours2.value_as_string(), "0");
    assert_eq!(ev.hours3.value_as_string(), "0");
}

#[test]
fn edit_values_default_is_five_minutes() {
    let ev = EditValues::default();
    assert_eq!(ev.descript, "New Timer");
    assert_eq!(ev.to_duration(), 300);
}

#[test]
fn edit_values_new_drops_line_breaks() {
    let ev = EditValues::new(String::from("a\nb\r\nc"), 0);
    assert_eq!(ev.descript, "abc");
}

#[test]
fn description_editing_push_and_backspace() {
    let mut ev = EditValues::new(String::from("ab"), 0);
    ev.push_description('c');
    assert_eq!(ev.descript, "abc");
    ev.backspace_description();
    ev.backspace_description();
    assert_eq!(ev.descript, "a");
    ev.backspace_description();
    ev.backspace_description();
    assert_eq!(ev.descript, "");
}

#[test]
fn field_cycle_forward_eight_steps() {
    let fields = [
        EditField::Description,
        EditField::Hours1,
        EditField::Hours2,
        EditField::Hours3,
        EditField::Minutes1,
        EditField::Minutes2,
        EditField::Seconds1,
        EditField::Seconds2,
    ];
    for start in fields {
        let mut f = start;
        for _ in 0..8 {
            f = next_field(f);
        }
        assert_eq!(f, start);
    }
}

#[test]
fn field_cycle_backward_eight_steps() {
    let fields = [
        EditField::Description,
        EditField::Hours1,
        EditField::Hours2,
        EditField::Hours3,
        EditField::Minutes1,
        EditField::Minutes2,
        EditField::Seconds1,
        EditField::Seconds2,
    ];
    for start in fields {
        let mut f = start;
        for _ in 0..8 {
            f = previous_field(f);
        }
        assert_eq!(f, start);
    }
}

#[test]
fn field_order_matches_layout() {
    assert_eq!(next_field(EditField::Description), EditField::Hours1);
    assert_eq!(next_field(EditField::Hours3), EditField::Minutes1);
    assert_eq!(next_field(EditField::Seconds2), EditField::Description);
    assert_eq!(previous_field(EditField::Description), EditField::Seconds2);
    assert_eq!(previous_field(EditField::Minutes1), EditField::Hours3);
}
