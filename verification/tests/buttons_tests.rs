use cdc_badge::app::{backlight_status, App as MenuApp, MenuAction};
use cdc_badge::buttons::{Button, ButtonSatuChange, ButtonStatus, ButtonsStatus, ExpanderInput};
use cdc_badge::pressed::PressedButtons;

fn release(b: Button) -> (Button, ButtonSatuChange) {
    (b, ButtonSatuChange { was_presed: true, duration: 3 })
}

fn press(b: Button) -> (Button, ButtonSatuChange) {
    (b, ButtonSatuChange { was_presed: false, duration: 3 })
}

#[test]
fn button_names() {
    let all = [
        (Button::Btn0, "0"),
        (Button::Btn1, "1"),
        (Button::Btn2, "2"),
        (Button::Btn3, "3"),
        (Button::Btn4, "4"),
        (Button::Btn5, "5"),
        (Button::Btn6, "6"),
        (Button::Btn7, "7"),
        (Button::Btn8, "8"),
        (Button::Btn9, "9"),
        (Button::BtnYes, "YES"),
        (Button::BtnNo, "NO"),
    ];
    for (b, n) in all.iter() {
        assert_eq!(b.name(), *n);
    }
    assert_eq!(Button::COUNT, 12);
}

#[test]
fn button_status_reports_a_change_once() {
    let mut st = ButtonStatus { pressed: false, since: 5 };
    let change = st.update(true, 12).unwrap();
    assert!(!change.was_presed);
    assert_eq!(change.duration, 7);
    assert!(st.pressed);
    assert_eq!(st.since, 12);
    assert!(st.update(true, 20).is_none());
    assert_eq!(st.since, 12);
    let change = st.update(false, 50).unwrap();
    assert!(change.was_presed);
    assert_eq!(change.duration, 38);
}

#[test]
fn button_status_default_is_released_at_zero() {
    let st = ButtonStatus::default();
    assert!(!st.pressed);
    assert_eq!(st.since, 0);
}

#[test]
fn reading_reports_changed_keys_in_keypad_order() {
    let mut status = ButtonsStatus::new();
    let changes = status.update(ExpanderInput { port0: 0b0000_0101, port1: 0b0000_1000 }, 100);
    assert_eq!(changes.len(), 3);
    let (b0, c0) = changes.get(0);
    let (b1, c1) = changes.get(1);
    let (b2, c2) = changes.get(2);
    assert_eq!(b0, Button::Btn0);
    assert_eq!(b1, Button::Btn2);
    assert_eq!(b2, Button::BtnNo);
    for c in [c0, c1, c2] {
        assert!(!c.was_presed);
        assert_eq!(c.duration, 100);
    }
    assert!(status.button_status(Button::Btn2).pressed);
    assert_eq!(status.button_status(Button::Btn2).since, 100);
    assert!(!status.button_status(Button::Btn1).pressed);
    assert_eq!(status.button_status(Button::Btn1).since, 0);

    // the same levels again: nothing changes
    let again = status.update(ExpanderInput { port0: 0b0000_0101, port1: 0b0000_1000 }, 150);
    assert_eq!(again.len(), 0);

    // key 0 comes up
    let up = status.update(ExpanderInput { port0: 0b0000_0100, port1: 0b0000_1000 }, 160);
    assert_eq!(up.len(), 1);
    let (b, c) = up.get(0);
    assert_eq!(b, Button::Btn0);
    assert!(c.was_presed);
    assert_eq!(c.duration, 60);
}

#[test]
fn reading_all_keys_at_once_drops_nothing() {
    let mut status = ButtonsStatus::new();
    let changes = status.update(ExpanderInput { port0: 0xff, port1: 0xff }, 1);
    assert_eq!(changes.len(), 12);
    assert_eq!(changes.get(8).0, Button::Btn8);
    assert_eq!(changes.get(9).0, Button::Btn9);
    assert_eq!(changes.get(10).0, Button::BtnYes);
    assert_eq!(changes.get(11).0, Button::BtnNo);
}

#[test]
fn reading_ignores_unwired_pins() {
    let mut status = ButtonsStatus::new();
    let changes = status.update(ExpanderInput { port0: 0, port1: 0xf0 }, 9);
    assert_eq!(changes.len(), 0);
}

#[test]
fn pressed_keys_follow_events() {
    let mut p = PressedButtons::new();
    p.record(Button::Btn3, false);
    p.record(Button::Btn7, false);
    p.record(Button::Btn3, false);
    assert_eq!(p.len(), 3);
    assert_eq!(p.position(Button::Btn7), Some(1));
    // releasing removes the first occurrence
    p.record(Button::Btn3, true);
    assert_eq!(p.len(), 2);
    assert_eq!(p.get(0), Button::Btn7);
    assert_eq!(p.get(1), Button::Btn3);
    // releasing a key that is not held changes nothing
    p.record(Button::Btn9, true);
    assert_eq!(p.len(), 2);
}

#[test]
fn press_and_release_restores_held_keys() {
    let mut p = PressedButtons::new();
    p.record(Button::Btn1, false);
    p.record(Button::Btn5, false);
    p.record(Button::Btn5, true);
    assert_eq!(p.len(), 1);
    assert_eq!(p.get(0), Button::Btn1);
}

#[test]
fn menu_moves_and_toggles_backlight() {
    let mut app = MenuApp::new();
    assert_eq!(app.selected, Some(0));
    // moving up from the first entry stays there
    assert_eq!(app.handle_input(release(Button::Btn2)), MenuAction::Nothing);
    assert_eq!(app.selected, Some(0));
    // a key going down does nothing but get held
    assert_eq!(app.handle_input(press(Button::Btn8)), MenuAction::Nothing);
    assert_eq!(app.selected, Some(0));
    assert_eq!(app.buttons_down.len(), 1);
    assert_eq!(app.handle_input(release(Button::Btn8)), MenuAction::Nothing);
    assert_eq!(app.buttons_down.len(), 0);
    assert_eq!(app.selected, Some(1));
    assert_eq!(app.handle_input(release(Button::BtnYes)), MenuAction::ToggleBacklight);
    assert_eq!(app.handle_input(release(Button::Btn5)), MenuAction::ToggleBacklight);
    assert_eq!(app.handle_input(press(Button::BtnYes)), MenuAction::Nothing);
    assert_eq!(app.handle_input(release(Button::Btn8)), MenuAction::Nothing);
    assert_eq!(app.selected, Some(2));
    assert_eq!(app.handle_enter(), MenuAction::Nothing);
    assert_eq!(app.handle_input(release(Button::Btn2)), MenuAction::Nothing);
    assert_eq!(app.handle_enter(), MenuAction::ToggleBacklight);
}

#[test]
fn menu_with_nothing_selected() {
    let mut app = MenuApp::new();
    app.selected = None;
    assert_eq!(app.handle_enter(), MenuAction::Nothing);
    app.handle_input(release(Button::Btn2));
    assert_eq!(app.selected, Some(usize::MAX));
    app.selected = None;
    app.handle_input(release(Button::Btn8));
    assert_eq!(app.selected, Some(0));
}

#[test]
fn selection_saturates_at_the_end() {
    let mut app = MenuApp::new();
    app.selected = Some(usize::MAX);
    app.handle_input(release(Button::Btn8));
    assert_eq!(app.selected, Some(usize::MAX));
}

#[test]
fn next_then_previous_returns() {
    let mut app = MenuApp::new();
    app.selected = Some(41);
    app.handle_input(release(Button::Btn8));
    assert_eq!(app.selected, Some(42));
    app.handle_input(release(Button::Btn2));
    assert_eq!(app.selected, Some(41));
}

#[test]
fn backlight_labels() {
    assert_eq!(backlight_status(true), "ON");
    assert_eq!(backlight_status(false), "OFF");
}

#[test]
fn unwired_pins_change_nothing() {
    let mut a = ButtonsStatus::new();
    let mut b = ButtonsStatus::new();
    let ca = a.update(ExpanderInput { port0: 0x12, port1: 0x05 }, 40);
    let cb = b.update(ExpanderInput { port0: 0x12, port1: 0xa5 }, 40);
    assert_eq!(ca.len(), cb.len());
    for i in 0..ca.len() {
        assert_eq!(ca.get(i).0, cb.get(i).0);
    }
    for k in [Button::Btn8, Button::Btn9, Button::BtnYes, Button::BtnNo] {
        assert_eq!(a.button_status(k).pressed, b.button_status(k).pressed);
    }
}

#[test]
fn alternating_events_keep_keys_once() {
    let mut p = PressedButtons::new();
    let all = [
        Button::Btn0, Button::Btn1, Button::Btn2, Button::Btn3, Button::Btn4, Button::Btn5,
        Button::Btn6, Button::Btn7, Button::Btn8, Button::Btn9, Button::BtnYes, Button::BtnNo,
    ];
    for b in all.iter() {
        p.record(*b, false);
    }
    assert_eq!(p.len(), 12);
    p.record(Button::Btn4, true);
    assert_eq!(p.len(), 11);
    assert_eq!(p.position(Button::Btn4), None);
    p.record(Button::Btn4, false);
    assert_eq!(p.len(), 12);
    assert_eq!(p.position(Button::Btn4), Some(11));
}

#[test]
fn readings_older_than_a_change_are_refused() {
    let mut status = ButtonsStatus::new();
    let _ = status.update(ExpanderInput { port0: 0b10, port1: 0 }, 100);
    // the same levels: nothing changes, so any time is fine
    assert!(status.accepts_reading(ExpanderInput { port0: 0b10, port1: 0 }, 50));
    // key 1 comes up at a time before it went down: refused
    assert!(!status.accepts_reading(ExpanderInput { port0: 0, port1: 0 }, 50));
    // another key going down at an early time is fine: its last change was at 0
    assert!(status.accepts_reading(ExpanderInput { port0: 0b11, port1: 0 }, 50));
    assert!(status.accepts_reading(ExpanderInput { port0: 0, port1: 0 }, 100));
}
