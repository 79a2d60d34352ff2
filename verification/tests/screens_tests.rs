use cdc_badge::apps::receiver::message_text;
use cdc_badge::list::{needs_scrollbar, with_back_entry};
use cdc_badge::apps::keypad::{App as DevicesApp, NextScreen};
use cdc_badge::apps::receiver::App as MessagesApp;
use cdc_badge::apps::scanner::App as ContactsApp;
use cdc_badge::ble::{format_bd_addr, Contact, ContactData};
use cdc_badge::buttons::{Button, ButtonSatuChange};
use cdc_badge::contacts::{contact_row, ContactTable};

fn release(b: Button) -> (Button, ButtonSatuChange) {
    (b, ButtonSatuChange { was_presed: true, duration: 1 })
}

fn contact(last: u8, name: Option<&str>, rssi: i8, seen_at: u64) -> Contact {
    Contact {
        addr: [last, 0x22, 0x33, 0x44, 0x55, 0x66],
        data: ContactData { name: name.map(|n| n.to_string()), rssi, seen_at },
    }
}

#[test]
fn bd_addr_is_hex_in_byte_order() {
    assert_eq!(format_bd_addr(&[0x01, 0xAB, 0x00, 0xff, 0x10, 0x9c]), "01:AB:00:FF:10:9C");
}

#[test]
fn contact_row_text() {
    let e = ([0x0a, 0x1b, 0x2c, 0x3d, 0x4e, 0x5f], ContactData { name: Some("tag".to_string()), rssi: -42, seen_at: 3 });
    assert_eq!(contact_row(&e), "0A:1B:2C:3D:4E:5F -42 db tag");
    let e = ([0; 6], ContactData { name: None, rssi: -128, seen_at: 3 });
    assert_eq!(contact_row(&e), "00:00:00:00:00:00 -128 db ");
    let e = ([0; 6], ContactData { name: None, rssi: 127, seen_at: 3 });
    assert_eq!(contact_row(&e), "00:00:00:00:00:00 127 db ");
    let e = ([0; 6], ContactData { name: None, rssi: 0, seen_at: 3 });
    assert_eq!(contact_row(&e), "00:00:00:00:00:00 0 db ");
    let e = ([0; 6], ContactData { name: None, rssi: -7, seen_at: 3 });
    assert_eq!(contact_row(&e), "00:00:00:00:00:00 -7 db ");
}

#[test]
fn known_contact_is_updated_in_place() {
    let mut t = ContactTable::new();
    t.record_contact(contact(1, Some("first"), -50, 10));
    t.record_contact(contact(2, None, -60, 11));
    t.record_contact(contact(1, None, -40, 20));
    assert_eq!(t.len(), 2);
    let (a, d) = t.entry(0);
    assert_eq!(a[0], 1);
    assert_eq!(d.name.as_deref(), Some("first"));
    assert_eq!(d.rssi, -40);
    assert_eq!(d.seen_at, 20);
    t.record_contact(contact(2, Some("second"), -61, 21));
    assert_eq!(t.entry(1).1.name.as_deref(), Some("second"));
}

#[test]
fn full_table_drops_least_recently_seen() {
    let mut t = ContactTable::new();
    for i in 0..32u8 {
        t.record_contact(contact(i, None, -1, 100 + i as u64));
    }
    assert_eq!(t.len(), 32);
    assert_eq!(t.oldest_index(), 0);
    t.record_contact(contact(200, None, -2, 500));
    assert_eq!(t.len(), 32);
    // the last entry moved into the freed place, the new one is last
    assert_eq!(t.entry(0).0[0], 31);
    assert_eq!(t.entry(31).0[0], 200);
    for i in 0..32 {
        assert_ne!(t.entry(i).1.seen_at, 100);
    }
}

#[test]
fn eviction_takes_the_first_of_equally_old() {
    let mut t = ContactTable::new();
    for i in 0..32u8 {
        let seen = if i == 5 || i == 9 { 1 } else { 50 };
        t.record_contact(contact(i, None, -1, seen));
    }
    assert_eq!(t.oldest_index(), 5);
    t.record_contact(contact(99, None, -1, 60));
    let mut has5 = false;
    let mut has9 = false;
    for i in 0..32 {
        let k = t.entry(i).0[0];
        has5 |= k == 5;
        has9 |= k == 9;
    }
    assert!(!has5);
    assert!(has9);
}

#[test]
fn rows_are_newest_first_ties_in_table_order() {
    let mut t = ContactTable::new();
    t.record_contact(contact(1, Some("a"), -1, 10));
    t.record_contact(contact(2, Some("b"), -2, 30));
    t.record_contact(contact(3, Some("c"), -3, 10));
    t.record_contact(contact(4, Some("d"), -4, 20));
    assert_eq!(t.newest_first_order(), vec![1, 3, 0, 2]);
    let rows = t.rows();
    assert_eq!(rows.len(), 4);
    assert_eq!(rows[0], "02:22:33:44:55:66 -2 db b");
    assert_eq!(rows[1], "04:22:33:44:55:66 -4 db d");
    assert_eq!(rows[2], "01:22:33:44:55:66 -1 db a");
    assert_eq!(rows[3], "03:22:33:44:55:66 -3 db c");
}

#[test]
fn devices_filter_and_keys() {
    let mut app = DevicesApp::new();
    assert!(app.only_show_devices_with_names);
    assert_eq!(app.footer_items(), vec!["Only showing devices with names".to_string()]);
    app.handle_devices_event(contact(1, None, -30, 5));
    assert_eq!(app.devices.len(), 0);
    app.handle_devices_event(contact(2, Some("named"), -30, 6));
    assert_eq!(app.devices.len(), 1);
    assert_eq!(app.handle_input(release(Button::Btn9)), None);
    assert!(!app.only_show_devices_with_names);
    assert!(app.footer_items().is_empty());
    app.handle_devices_event(contact(1, None, -30, 7));
    assert_eq!(app.devices.len(), 2);
    assert_eq!(app.device_rows()[0], "01:22:33:44:55:66 -30 db ");
    assert_eq!(app.handle_input(release(Button::Btn9)), None);
    assert!(app.only_show_devices_with_names);
    // while filtering, a report without a name is ignored, also for a known device
    app.handle_devices_event(contact(2, None, -31, 8));
    assert_eq!(app.devices.entry(0).0[0], 2);
    assert_eq!(app.devices.entry(0).1.seen_at, 6);
    assert_eq!(app.handle_input(release(Button::Btn0)), None);
    assert_eq!(app.devices.len(), 0);
    assert_eq!(app.handle_enter(), Some(NextScreen::Back));
    assert_eq!(app.handle_input(release(Button::Btn8)), None);
    assert_eq!(app.selected, Some(1));
    assert_eq!(app.handle_input(release(Button::BtnYes)), None);
    assert_eq!(app.handle_input(release(Button::Btn2)), None);
    assert_eq!(app.handle_input(release(Button::Btn5)), Some(NextScreen::Back));
    assert_eq!(app.handle_input(release(Button::BtnNo)), Some(NextScreen::Back));
    assert_eq!(app.handle_input(release(Button::Btn4)), None);
}

#[test]
fn contacts_screen_keys() {
    let mut app = ContactsApp::new();
    app.handle_contact(contact(7, None, -70, 1));
    app.handle_contact(contact(8, Some("x"), -80, 2));
    assert_eq!(app.contacts.len(), 2);
    let rows = app.contact_rows();
    assert_eq!(rows[0], "08:22:33:44:55:66 -80 db x");
    assert_eq!(rows[1], "07:22:33:44:55:66 -70 db ");
    assert_eq!(app.handle_input(release(Button::Btn9)), None);
    assert_eq!(app.contacts.len(), 2);
    assert_eq!(app.handle_input(release(Button::Btn0)), None);
    assert_eq!(app.contacts.len(), 0);
    assert_eq!(app.handle_input(release(Button::Btn8)), None);
    assert_eq!(app.handle_enter(), None);
    assert_eq!(app.handle_input(release(Button::Btn2)), None);
    assert_eq!(app.handle_input(release(Button::BtnYes)), Some(NextScreen::Back));
    assert_eq!(app.handle_input(release(Button::BtnNo)), Some(NextScreen::Back));
}

#[test]
fn messages_newest_first_keeps_ten() {
    let mut app = MessagesApp::new();
    app.handle_message("hello".to_string());
    app.handle_message("world".to_string());
    assert_eq!(app.message_lines(), vec!["* world".to_string(), "* hello".to_string()]);
    for i in 0..10 {
        app.handle_message(format!("m{}", i));
    }
    let lines = app.message_lines();
    assert_eq!(lines.len(), 10);
    assert_eq!(lines[0], "* m9");
    assert_eq!(lines[9], "* m0");
    assert_eq!(app.handle_input(release(Button::Btn5)), None);
    assert_eq!(app.message_lines().len(), 10);
    assert_eq!(app.handle_input(release(Button::Btn0)), None);
    assert!(app.message_lines().is_empty());
    assert_eq!(app.handle_input(release(Button::BtnNo)), Some(NextScreen::Back));
}

#[test]
fn filter_hides_nameless_devices() {
    let mut app = DevicesApp::new();
    app.handle_devices_event(contact(2, Some("named"), -30, 6));
    // filter off: a nameless device is taken in and listed
    assert_eq!(app.handle_input(release(Button::Btn9)), None);
    app.handle_devices_event(contact(1, None, -40, 7));
    assert_eq!(app.device_rows().len(), 2);
    // filter on again: it stays stored but is not listed
    assert_eq!(app.handle_input(release(Button::Btn9)), None);
    assert_eq!(app.devices.len(), 2);
    let rows = app.device_rows();
    assert_eq!(rows, vec!["02:22:33:44:55:66 -30 db named".to_string()]);
}

#[test]
fn list_entries_and_scrollbar() {
    let items = with_back_entry(vec!["a".to_string(), "b".to_string()]);
    assert_eq!(items, vec!["Back".to_string(), "a".to_string(), "b".to_string()]);
    assert_eq!(with_back_entry(Vec::new()), vec!["Back".to_string()]);
    assert!(needs_scrollbar(5, 4));
    assert!(!needs_scrollbar(4, 4));
}

#[test]
fn packet_text() {
    assert_eq!(message_text(b"hi there").as_deref(), Some("hi there"));
    assert_eq!(message_text(&[0xe2, 0x82, 0xac]).as_deref(), Some("\u{20ac}"));
    assert_eq!(message_text(&[0xff, 0x41]), None);
    assert_eq!(message_text(&[]).as_deref(), Some(""));
}
