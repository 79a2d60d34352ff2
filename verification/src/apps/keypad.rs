use vstd::prelude::*;

use crate::ble::{Contact, ContactData};
use crate::buttons::{Button, ButtonSatuChange};
use crate::contacts::{
    contact_row, has_key, is_first_oldest, is_newest_first, key_index, newest_first, recorded, row_text,
    ContactTable,
};
use crate::list::{select_next, select_previous, selection_after};
use crate::pressed::{after_key_event, pressed_contents, PressedButtons};

verus! {

/// Where a screen hands control when it is left.
#[derive(Debug, Clone, Copy, PartialEq, Eq, Structural)]
pub enum NextScreen {
    Back,
}

/// What entering a device list does: its first entry ("Back") leaves the screen.
pub open spec fn enter_outcome(selected: Option<usize>) -> Option<NextScreen> {
    if selected == Some(0usize) {
        Some(NextScreen::Back)
    } else {
        None
    }
}

/// Where a key event leads from a device list: YES and 5, when they come up, enter the
/// selection; NO, when it comes up, leaves.
pub open spec fn list_exit_after(selected: Option<usize>, key: Button, released: bool) -> Option<
    NextScreen,
> {
    if released && (key == Button::BtnYes || key == Button::Btn5) {
        enter_outcome(selected)
    } else if released && key == Button::BtnNo {
        Some(NextScreen::Back)
    } else {
        None
    }
}

/// The name filter after a key event: 9 coming up toggles it.
pub open spec fn filter_after(filter: bool, key: Button, released: bool) -> bool {
    if released && key == Button::Btn9 {
        !filter
    } else {
        filter
    }
}

/// A key event empties the list: 0 coming up.
pub open spec fn clears_list(key: Button, released: bool) -> bool {
    released && key == Button::Btn0
}

/// The footer shown while only named devices are listed.
pub open spec fn names_only_footer() -> Seq<char> {
    seq![
        'O', 'n', 'l', 'y', ' ', 's', 'h', 'o', 'w', 'i', 'n', 'g', ' ', 'd', 'e', 'v', 'i', 'c',
        'e', 's', ' ', 'w', 'i', 't', 'h', ' ', 'n', 'a', 'm', 'e', 's'
    ]
}

/// A device at position `p` is listed: always, or only when it has a name while the name filter
/// is on.
pub open spec fn shown_position(s: Seq<([u8; 6], ContactData)>, named_only: bool, p: usize) -> bool {
    !named_only || s[p as int].1.name is Some
}

/// The positions of the devices listed, newest first.
pub open spec fn shown_devices(s: Seq<([u8; 6], ContactData)>, named_only: bool) -> Seq<usize> {
    newest_first(s).filter(|p: usize| shown_position(s, named_only, p))
}

/// The list of scanned devices; pressing 9 toggles the filter that only displays devices with
/// names.
pub struct App {
    pub buttons_down: PressedButtons,
    pub selected: Option<usize>,
    pub devices: ContactTable,
    pub only_show_devices_with_names: bool,
}

impl App {
    /// No key held, "Back" selected, no device, the name filter on.
    pub fn new() -> (app: App)
        ensures
            pressed_contents(app.buttons_down) == Seq::<Button>::empty(),
            app.selected == Some(0usize),
            app.devices@ == Seq::<([u8; 6], crate::ble::ContactData)>::empty(),
            app.only_show_devices_with_names,
    {
        App {
            buttons_down: PressedButtons::new(),
            selected: Some(0),
            devices: ContactTable::new(),
            only_show_devices_with_names: true,
        }
    }

    /// Takes in a scanned device; while the name filter is on, a report without a name is
    /// ignored.
    pub fn handle_devices_event(&mut self, contact: Contact)
        ensures
            final(self).devices@ == (if old(self).only_show_devices_with_names
                && contact.data.name is None {
                old(self).devices@
            } else {
                recorded(old(self).devices@, contact.addr, contact.data)
            }),
            final(self).only_show_devices_with_names == old(self).only_show_devices_with_names,
            final(self).selected == old(self).selected,
            pressed_contents(final(self).buttons_down) == pressed_contents(old(self).buttons_down),
    {
        if self.only_show_devices_with_names && contact.data.name.is_none() {
            return ;
        }
        self.devices.record_contact(contact);
    }

    /// What entering the list does with the current selection.
    pub fn handle_enter(&self) -> (r: Option<NextScreen>)
        ensures
            r == enter_outcome(self.selected),
            r is Some <==> self.selected == Some(0usize),
    {
        match self.selected {
            Some(0) => Some(NextScreen::Back),
            _ => None,
        }
    }

    /// Handles a key event. Keys act when they come up: 2 and 8 move the selection, 9 toggles
    /// the name filter, YES and 5 enter the selection, NO leaves, 0 forgets every device.
    pub fn handle_input(&mut self, event: (Button, ButtonSatuChange)) -> (r: Option<NextScreen>)
        requires
            !event.1.was_presed ==> pressed_contents(old(self).buttons_down).len() < Button::COUNT,
        ensures
            pressed_contents(final(self).buttons_down) == after_key_event(
                pressed_contents(old(self).buttons_down),
                event.0,
                event.1.was_presed,
            ),
            final(self).selected == selection_after(old(self).selected, event.0, event.1.was_presed),
            final(self).only_show_devices_with_names == filter_after(old(self).only_show_devices_with_names, event.0, event.1.was_presed),
            final(self).devices@ == (if clears_list(event.0, event.1.was_presed) {
                Seq::<([u8; 6], crate::ble::ContactData)>::empty()
            } else {
                old(self).devices@
            }),
            r == list_exit_after(old(self).selected, event.0, event.1.was_presed),
    {
        self.buttons_down.record(event.0, event.1.was_presed);
        if event.1.was_presed {
            match event.0 {
                Button::Btn2 => {
                    self.selected = select_previous(self.selected);
                    None
                },
                Button::Btn8 => {
                    self.selected = select_next(self.selected);
                    None
                },
                Button::Btn9 => {
                    self.only_show_devices_with_names = !self.only_show_devices_with_names;
                    None
                },
                Button::BtnYes | Button::Btn5 => self.handle_enter(),
                Button::BtnNo => Some(NextScreen::Back),
                Button::Btn0 => {
                    self.devices.clear();
                    None
                },
                _ => None,
            }
        } else {
            None
        }
    }

    /// The rows shown below "Back": the devices newest first, only those with a name while the
    /// name filter is on.
    pub fn device_rows(&self) -> (r: Vec<String>)
        ensures
            r@.len() == shown_devices(self.devices@, self.only_show_devices_with_names).len(),
            forall|k: int|
                0 <= k < r@.len() ==> #[trigger] r@[k]@ == row_text(
                    self.devices@[shown_devices(self.devices@, self.only_show_devices_with_names)[k] as int],
                ),
    {
        let order = self.devices.newest_first_order();
        let named_only = self.only_show_devices_with_names;
        let ghost s = self.devices@;
        let ghost keep = |p: usize| shown_position(s, named_only, p);
        let mut rows: Vec<String> = Vec::new();
        let mut k: usize = 0;
        while k < order.len()
            invariant
                s == self.devices@,
                keep == (|p: usize| shown_position(s, named_only, p)),
                order@ == newest_first(s),
                is_newest_first(s, order@),
                k <= order@.len(),
                rows@.len() == order@.take(k as int).filter(keep).len(),
                forall|m: int|
                    0 <= m < rows@.len() ==> #[trigger] rows@[m]@ == row_text(
                        s[order@.take(k as int).filter(keep)[m] as int],
                    ),
            decreases order@.len() - k,
        {
            let e = self.devices.entry(order[k]);
            proof {
                assert(order@.take(k + 1) =~= order@.take(k as int).push(order@[k as int]));
                order@.take(k as int).lemma_filter_push(order@[k as int], keep);
            }
            if !named_only || e.1.name.is_some() {
                rows.push(contact_row(&e));
            }
            k = k + 1;
        }
        proof {
            assert(order@.take(order@.len() as int) =~= order@);
        }
        rows
    }

    /// The footer texts: a note while the name filter is on.
    pub fn footer_items(&self) -> (r: Vec<String>)
        ensures
            self.only_show_devices_with_names ==> r@.len() == 1 && r@[0]@ == names_only_footer(),
            !self.only_show_devices_with_names ==> r@.len() == 0,
    {
        let mut items: Vec<String> = Vec::new();
        if self.only_show_devices_with_names {
            let note = String::from_str("Only showing devices with names");
            proof {
                reveal_strlit("Only showing devices with names");
                assert(note@ =~= names_only_footer());
            }
            items.push(note);
        }
        items
    }
}

/// Every device in the entries has a name.
pub open spec fn all_named(s: Seq<([u8; 6], ContactData)>) -> bool {
    forall|i: int| 0 <= i < s.len() ==> (#[trigger] s[i]).1.name is Some
}

/// While the name filter is on, a list that holds only named devices keeps holding only named
/// devices, whatever is reported.
pub proof fn lemma_filter_keeps_names(s: Seq<([u8; 6], ContactData)>, c: Contact)
    requires
        all_named(s),
    ensures
        all_named(
            if c.data.name is None {
                s
            } else {
                recorded(s, c.addr, c.data)
            },
        ),
{
    if c.data.name is Some {
        let r = recorded(s, c.addr, c.data);
        if has_key(s, c.addr) {
            assert forall|i: int| 0 <= i < r.len() implies (#[trigger] r[i]).1.name is Some by {
                if i != key_index(s, c.addr) {
                    assert(r[i] == s[i]);
                }
            }
        } else if s.len() >= crate::contacts::CONTACT_CAPACITY {
            crate::contacts::lemma_first_oldest_exists(s);
            let j = choose|j: int| is_first_oldest(s, j);
            assert(is_first_oldest(s, j));
            assert forall|i: int| 0 <= i < r.len() implies (#[trigger] r[i]).1.name is Some by {
                if i < r.len() - 1 {
                    if i == j && j < s.len() - 1 {
                        assert(r[i] == s[s.len() - 1]);
                    } else {
                        assert(r[i] == s[i]);
                    }
                }
            }
        } else {
            assert forall|i: int| 0 <= i < r.len() implies (#[trigger] r[i]).1.name is Some by {
                if i < s.len() {
                    assert(r[i] == s[i]);
                }
            }
        }
    }
}

/// With the name filter on, every device listed has a name.
pub proof fn lemma_filtered_rows_named(s: Seq<([u8; 6], ContactData)>, k: int)
    requires
        0 <= k < shown_devices(s, true).len(),
    ensures
        s[shown_devices(s, true)[k] as int].1.name is Some,
{
    broadcast use vstd::seq_lib::group_filter_ensures;

    assert(shown_devices(s, true) == newest_first(s).filter(|p: usize| shown_position(s, true, p)));
}

/// Entering a device list leaves the screen exactly when the first entry ("Back", index 0) is
/// selected; any other entry, or no selection, keeps the screen.
pub proof fn lemma_enter_leaves_only_on_back(selected: Option<usize>)
    ensures
        enter_outcome(selected) is Some <==> selected == Some(0usize),
        enter_outcome(selected) is Some ==> enter_outcome(selected) == Some(NextScreen::Back),
{
}

/// The device list shows exactly the stored devices, or, while the name filter is on, exactly
/// the stored devices that have a name.
pub proof fn lemma_listed_devices(s: Seq<([u8; 6], ContactData)>, named_only: bool, p: usize)
    requires
        s.len() <= usize::MAX,
    ensures
        shown_devices(s, named_only).contains(p) <==> (p < s.len() && (!named_only || s[p as int].1.name
            is Some)),
{
    broadcast use vstd::seq_lib::group_filter_ensures;

    crate::contacts::lemma_newest_first_exists(s);
    let o = newest_first(s);
    let keep = |q: usize| shown_position(s, named_only, q);
    assert(shown_devices(s, named_only) == o.filter(keep));
    if shown_devices(s, named_only).contains(p) {
        o.lemma_filter_contains_rev(keep, p);
        assert(o.contains(p));
        let k = choose|k: int| 0 <= k < o.len() && o[k] == p;
        assert(o[k] < s.len());
        let f = o.filter(keep);
        let j = choose|j: int| 0 <= j < f.len() && f[j] == p;
        assert(keep(f[j]));
    }
    if p < s.len() && (!named_only || s[p as int].1.name is Some) {
        assert(o.contains(p));
        let k = choose|k: int| 0 <= k < o.len() && o[k] == p;
        assert(keep(o[k]));
    }
}

/// On a device list, a key event leaves exactly when NO comes up, or YES or 5 comes up while
/// "Back" (entry 0) is selected; the name filter flips exactly when 9 comes up; the list is
/// emptied exactly when 0 comes up.
pub proof fn lemma_list_keys(selected: Option<usize>, filter: bool, key: Button, released: bool)
    ensures
        list_exit_after(selected, key, released) is Some <==> (released && (key == Button::BtnNo || ((key
            == Button::BtnYes || key == Button::Btn5) && selected == Some(0usize)))),
        list_exit_after(selected, key, released) is Some ==> list_exit_after(selected, key, released)
            == Some(NextScreen::Back),
        (filter_after(filter, key, released) != filter) <==> (released && key == Button::Btn9),
        clears_list(key, released) <==> (released && key == Button::Btn0),
{
}

} // verus!
