use cdc_badge::drawer::pixel_on_screen;
use cdc_badge::ble::{
    advertised_name, advertising_data, contact_from_report, tx_packet_from_write, AdvertiseError, NAME,
};
use cdc_badge::charger::{charger_id_matches, min_voltage_setting};
use cdc_badge::drawer::{FrameBuffer, RefreshKind, SsdTarget, SsdTargetManager, FRAME_BUFFER_SIZE, HEIGHT, WIDTH};

#[test]
fn write_is_cut_to_packet_size() {
    let data: Vec<u8> = (0..40u8).collect();
    let p = tx_packet_from_write(&data);
    assert_eq!(p.len(), 32);
    for i in 0..32 {
        assert_eq!(p.get(i), i as u8);
    }
    let p = tx_packet_from_write(&[9, 8, 7]);
    assert_eq!(p.len(), 3);
    assert_eq!(p.get(2), 7);
    assert_eq!(tx_packet_from_write(&[]).len(), 0);
}

#[test]
fn advertising_data_of_the_badge() {
    let buf = advertising_data(NAME).unwrap();
    let name = NAME.as_bytes();
    assert_eq!(&buf[..5], &[2, 1, 6, name.len() as u8 + 1, 9]);
    assert_eq!(&buf[5..5 + name.len()], name);
    assert!(buf[5 + name.len()..].iter().all(|b| *b == 0));
}

#[test]
fn advertising_name_limits() {
    let ok = "abcdefghijklmnopqrstuvwxyz";
    let buf = advertising_data(ok).unwrap();
    assert_eq!(buf[3], 27);
    assert_eq!(buf[30], b'z');
    assert_eq!(advertising_data("abcdefghijklmnopqrstuvwxyz0"), Err(AdvertiseError::InsufficientSpace));
}

#[test]
fn advertised_name_prefers_complete() {
    let data = [2, 1, 6, 4, 8, b'a', b'b', b'c', 3, 9, b'x', b'y'];
    assert_eq!(advertised_name(&data).as_deref(), Some("xy"));
    let data = [4, 8, b'a', b'b', b'c', 2, 1, 6];
    assert_eq!(advertised_name(&data).as_deref(), Some("abc"));
    let data = [2, 1, 6];
    assert_eq!(advertised_name(&data), None);
    assert_eq!(advertised_name(&[]), None);
}

#[test]
fn advertised_name_falls_back_and_skips_bad_bytes() {
    // complete name not valid UTF-8: the shortened one is used
    let data = [3, 8, b'o', b'k', 2, 9, 0xff];
    assert_eq!(advertised_name(&data).as_deref(), Some("ok"));
    // a later shortened name replaces an earlier one
    let data = [2, 8, b'a', 2, 8, b'b'];
    assert_eq!(advertised_name(&data).as_deref(), Some("b"));
    // an invalid later shortened name clears it
    let data = [2, 8, b'a', 2, 8, 0xff];
    assert_eq!(advertised_name(&data), None);
    // a zero length byte is skipped
    let data = [0, 3, 9, b'h', b'i'];
    assert_eq!(advertised_name(&data).as_deref(), Some("hi"));
    // a truncated structure: decoding goes on after its type byte
    let data = [9, 1, 3, 9, b'h', b'i'];
    assert_eq!(advertised_name(&data).as_deref(), Some("hi"));
    // only the first complete name counts
    let data = [2, 9, b'p', 2, 9, b'q'];
    assert_eq!(advertised_name(&data).as_deref(), Some("p"));
}

#[test]
fn contact_of_a_report() {
    let c = contact_from_report([1, 2, 3, 4, 5, 6], -77, &[3, 9, b'h', b'i'], 1234);
    assert_eq!(c.addr, [1, 2, 3, 4, 5, 6]);
    assert_eq!(c.data.rssi, -77);
    assert_eq!(c.data.seen_at, 1234);
    assert_eq!(c.data.name.as_deref(), Some("hi"));
}

#[test]
fn frame_sizes() {
    assert_eq!(WIDTH, 296);
    assert_eq!(HEIGHT, 128);
    assert_eq!(FRAME_BUFFER_SIZE, 4736);
}

#[test]
fn pixel_set_and_clear() {
    let mut fb = FrameBuffer::new();
    fb.draw_pixel(0, 127, true);
    assert_eq!(fb.bytes[0], 0x80);
    fb.draw_pixel(0, 120, true);
    assert_eq!(fb.bytes[0], 0x81);
    fb.draw_pixel(295, 0, true);
    assert_eq!(fb.bytes[4735], 0x01);
    fb.draw_pixel(1, 127, true);
    assert_eq!(fb.bytes[16], 0x80);
    fb.draw_pixel(0, 127, false);
    assert_eq!(fb.bytes[0], 0x01);
    assert_eq!(fb.bytes.iter().filter(|b| **b != 0).count(), 3);
}

#[test]
fn refresh_cycle() {
    let mut m = SsdTargetManager::new();
    assert_eq!(m.next_refresh(), RefreshKind::Full);
    for _ in 0..10 {
        assert_eq!(m.next_refresh(), RefreshKind::Partial);
    }
    assert_eq!(m.next_refresh(), RefreshKind::Full);
    assert_eq!(m.refresh_count, 0);
}

#[test]
fn flush_once_per_change() {
    let mut t = SsdTarget::new();
    assert!(t.flush());
    assert!(!t.flush());
    t.mark_drawn();
    assert!(t.flush());
}

#[test]
fn charger_registers() {
    assert!(charger_id_matches(0x39));
    assert!(charger_id_matches(0xF9));
    assert!(!charger_id_matches(0x38));
    assert_eq!(min_voltage_setting(0xFF), 0xFB);
    assert_eq!(min_voltage_setting(0x00), 0x0A);
}

#[test]
fn pixels_on_screen() {
    assert!(pixel_on_screen(0, 0));
    assert!(pixel_on_screen(295, 127));
    assert!(!pixel_on_screen(296, 0));
    assert!(!pixel_on_screen(0, 128));
    assert!(!pixel_on_screen(-1, 5));
    assert!(!pixel_on_screen(3, -1));
}

#[test]
fn offscreen_pixels_are_discarded() {
    let mut fb = FrameBuffer::new();
    fb.draw(-1, 5, true);
    fb.draw(296, 0, true);
    fb.draw(0, 128, true);
    fb.draw(3, -7, true);
    assert!(fb.bytes.iter().all(|b| *b == 0));
    fb.draw(0, 127, true);
    assert_eq!(fb.bytes[0], 0x80);
    fb.draw(0, 127, false);
    assert_eq!(fb.bytes[0], 0);
}

#[test]
fn pending_refresh_does_not_count() {
    let mut m = SsdTargetManager::new();
    assert_eq!(m.pending_refresh(), RefreshKind::Full);
    assert_eq!(m.pending_refresh(), RefreshKind::Full);
    assert_eq!(m.next_refresh(), RefreshKind::Full);
    assert_eq!(m.pending_refresh(), RefreshKind::Partial);
    assert_eq!(m.refresh_count, 0);
}
