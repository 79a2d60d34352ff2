use vstd::prelude::*;

use crate::buttons::{Button, ButtonSatuChange};
use crate::list::{select_next, select_previous, selection_after};
use crate::pressed::{after_key_event, pressed_contents, PressedButtons};

verus! {

/// What the main menu asks of the device after a key event.
#[derive(Debug, Clone, Copy, PartialEq, Eq, Structural)]
pub enum MenuAction {
    Nothing,
    ToggleBacklight,
}

/// The entry of the main menu that switches the backlight.
pub const BACKLIGHT_ENTRY: usize = 1;

/// What entering the menu does with a selection: the backlight entry toggles the backlight.
pub open spec fn enter_action(selected: Option<usize>) -> MenuAction {
    if selected == Some(BACKLIGHT_ENTRY) {
        MenuAction::ToggleBacklight
    } else {
        MenuAction::Nothing
    }
}

/// What a key event asks of the main menu: YES and 5, when they come up, enter the selection.
pub open spec fn menu_action_after(selected: Option<usize>, key: Button, released: bool) -> MenuAction {
    if released && (key == Button::BtnYes || key == Button::Btn5) {
        enter_action(selected)
    } else {
        MenuAction::Nothing
    }
}

/// The main menu: the keys held and the selected entry.
pub struct App {
    pub buttons_down: PressedButtons,
    pub selected: Option<usize>,
}

/// The backlight label shown in the menu.
pub open spec fn backlight_label(on: bool) -> Seq<char> {
    if on {
        seq!['O', 'N']
    } else {
        seq!['O', 'F', 'F']
    }
}

/// The label of the backlight state.
pub fn backlight_status(on: bool) -> (r: &'static str)
    ensures
        r@ == backlight_label(on),
{
    if on {
        proof {
            reveal_strlit("ON");
        }
        "ON"
    } else {
        proof {
            reveal_strlit("OFF");
        }
        "OFF"
    }
}

impl App {
    /// No key held, the first entry selected.
    pub fn new() -> (app: App)
        ensures
            pressed_contents(app.buttons_down) == Seq::<Button>::empty(),
            app.selected == Some(0usize),
    {
        App { buttons_down: PressedButtons::new(), selected: Some(0) }
    }

    /// What entering the menu does with the current selection.
    pub fn handle_enter(&self) -> (r: MenuAction)
        ensures
            r == enter_action(self.selected),
            (r == MenuAction::ToggleBacklight) <==> self.selected == Some(1usize),
    {
        match self.selected {
            Some(1) => MenuAction::ToggleBacklight,
            _ => MenuAction::Nothing,
        }
    }

    /// Handles a key event. Keys act when they come up: 2 moves the selection up, 8 moves it
    /// down, YES and 5 enter the selected entry.
    pub fn handle_input(&mut self, event: (Button, ButtonSatuChange)) -> (r: MenuAction)
        requires
            !event.1.was_presed ==> pressed_contents(old(self).buttons_down).len() < Button::COUNT,
        ensures
            pressed_contents(final(self).buttons_down) == after_key_event(
                pressed_contents(old(self).buttons_down),
                event.0,
                event.1.was_presed,
            ),
            final(self).selected == selection_after(old(self).selected, event.0, event.1.was_presed),
            r == menu_action_after(old(self).selected, event.0, event.1.was_presed),
    {
        self.buttons_down.record(event.0, event.1.was_presed);
        if event.1.was_presed {
            match event.0 {
                Button::Btn2 => {
                    self.selected = select_previous(self.selected);
                    MenuAction::Nothing
                },
                Button::Btn8 => {
                    self.selected = select_next(self.selected);
                    MenuAction::Nothing
                },
                Button::BtnYes | Button::Btn5 => self.handle_enter(),
                _ => MenuAction::Nothing,
            }
        } else {
            MenuAction::Nothing
        }
    }
}

/// Entering the menu toggles the backlight exactly when the second entry (index 1, the
/// backlight line) is selected; on any other entry, or with nothing selected, it does nothing.
pub proof fn lemma_enter_toggles_only_on_backlight(selected: Option<usize>)
    ensures
        (enter_action(selected) == MenuAction::ToggleBacklight) <==> selected == Some(1usize),
        selected != Some(1usize) ==> enter_action(selected) == MenuAction::Nothing,
{
}

/// A key event toggles the backlight exactly when YES or 5 comes up while the backlight entry
/// (index 1) is selected; every other event asks nothing.
pub proof fn lemma_menu_keys(selected: Option<usize>, key: Button, released: bool)
    ensures
        (menu_action_after(selected, key, released) == MenuAction::ToggleBacklight) <==> (released && (
        key == Button::BtnYes || key == Button::Btn5) && selected == Some(1usize)),
        menu_action_after(selected, key, released) != MenuAction::ToggleBacklight ==> menu_action_after(
            selected,
            key,
            released,
        ) == MenuAction::Nothing,
{
}

} // verus!
