use vstd::prelude::*;

use crate::apps::keypad::{clears_list, enter_outcome, list_exit_after, NextScreen};
use crate::ble::Contact;
use crate::buttons::{Button, ButtonSatuChange};
use crate::contacts::{newest_first, recorded, row_text, ContactTable};
use crate::list::{select_next, select_previous, selection_after};
use crate::pressed::{after_key_event, pressed_contents, PressedButtons};

verus! {

/// The list of contacts met during scans.
pub struct App {
    pub buttons_down: PressedButtons,
    pub selected: Option<usize>,
    pub contacts: ContactTable,
}

impl App {
    /// No key held, "Back" selected, no contact.
    pub fn new() -> (app: App)
        ensures
            pressed_contents(app.buttons_down) == Seq::<Button>::empty(),
            app.selected == Some(0usize),
            app.contacts@ == Seq::<([u8; 6], crate::ble::ContactData)>::empty(),
    {
        App { buttons_down: PressedButtons::new(), selected: Some(0), contacts: ContactTable::new() }
    }

    /// Takes in a scanned contact.
    pub fn handle_contact(&mut self, contact: Contact)
        ensures
            final(self).contacts@ == recorded(old(self).contacts@, contact.addr, contact.data),
            final(self).selected == old(self).selected,
            pressed_contents(final(self).buttons_down) == pressed_contents(old(self).buttons_down),
    {
        self.contacts.record_contact(contact);
    }

    /// What entering the list does with the current selection.
    pub fn handle_enter(&self) -> (r: Option<NextScreen>)
        ensures
            r == enter_outcome(self.selected),
            r is Some <==> self.selected == Some(0usize),
    {
        match self.selected {
            Some(0) => Some(NextScreen::Back),
            _ => None,
        }
    }

    /// Handles a key event. Keys act when they come up: 2 and 8 move the selection, YES and 5
    /// enter the selection, NO leaves, 0 forgets every contact.
    pub fn handle_input(&mut self, event: (Button, ButtonSatuChange)) -> (r: Option<NextScreen>)
        requires
            !event.1.was_presed ==> pressed_contents(old(self).buttons_down).len() < Button::COUNT,
        ensures
            pressed_contents(final(self).buttons_down) == after_key_event(
                pressed_contents(old(self).buttons_down),
                event.0,
                event.1.was_presed,
            ),
            final(self).selected == selection_after(old(self).selected, event.0, event.1.was_presed),
            final(self).contacts@ == (if clears_list(event.0, event.1.was_presed) {
                Seq::<([u8; 6], crate::ble::ContactData)>::empty()
            } else {
                old(self).contacts@
            }),
            r == list_exit_after(old(self).selected, event.0, event.1.was_presed),
    {
        self.buttons_down.record(event.0, event.1.was_presed);
        if event.1.was_presed {
            match event.0 {
                Button::Btn2 => {
                    self.selected = select_previous(self.selected);
                    None
                },
                Button::Btn8 => {
                    self.selected = select_next(self.selected);
                    None
                },
                Button::BtnYes | Button::Btn5 => self.handle_enter(),
                Button::BtnNo => Some(NextScreen::Back),
                Button::Btn0 => {
                    self.contacts.clear();
                    None
                },
                _ => None,
            }
        } else {
            None
        }
    }

    /// The rows shown below "Back": every contact, newest first.
    pub fn contact_rows(&self) -> (r: Vec<String>)
        ensures
            r@.len() == self.contacts@.len(),
            forall|k: int|
                0 <= k < r@.len() ==> #[trigger] r@[k]@ == row_text(
                    self.contacts@[newest_first(self.contacts@)[k] as int],
                ),
    {
        self.contacts.rows()
    }
}

} // verus!
