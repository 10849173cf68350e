use fastpeq::fiio;
use fastpeq::moondrop;
use fastpeq::moondrop_family::{reply_matches, REPORT_ID, REPORT_LEN};
use fastpeq::protocol::{frame, report_payload, PushStep};
use fastpeq::walkplay;

#[test]
fn reports_are_framed_and_unframed() {
    let r = frame(REPORT_ID, REPORT_LEN, &[0x80, 0x0C]);
    assert_eq!(r.len(), 1 + REPORT_LEN);
    assert_eq!(&r[..3], &[0x4B, 0x80, 0x0C]);
    assert!(r[3..].iter().all(|&b| b == 0));
    assert_eq!(report_payload(&[0x4B, 0x80, 0x0C, 0x31], 4, 0x4B), vec![0x80, 0x0C, 0x31]);
    assert_eq!(report_payload(&[0x80, 0x0C, 0x31, 0x00], 3, 0x4B), vec![0x80, 0x0C, 0x31]);
    assert!(reply_matches(&[0x80, 0x09, 0x00], 0x80, 0x09));
    assert!(!reply_matches(&[0x80], 0x80, 0x09));
    assert!(!reply_matches(&[0x80, 0x0C], 0x80, 0x09));
}

#[test]
fn moondrop_push_enables_each_band_then_pregain_then_saves() {
    let plan = moondrop::push_plan(2, true, true);
    assert_eq!(
        plan,
        vec![
            PushStep::Band(0),
            PushStep::Packet(vec![0x01, 0x0A, 0, 0, 255, 255, 255]),
            PushStep::Band(1),
            PushStep::Packet(vec![0x01, 0x0A, 1, 0, 255, 255, 255]),
            PushStep::Gain,
            PushStep::Packet(vec![0x01, 0x01]),
        ]
    );
    assert_eq!(moondrop::push_plan(8, false, false).len(), 16);
    assert_eq!(moondrop::band_request(3), vec![0x80, 0x09, 0x18, 0x00, 3, 0x00]);
    assert_eq!(moondrop::version_request(), vec![0x80, 0x0C]);
}

#[test]
fn walkplay_push_applies_live_and_saves_in_the_app_order() {
    assert_eq!(
        walkplay::push_plan(1, false),
        vec![
            PushStep::Band(0),
            PushStep::Gain,
            PushStep::Packet(vec![0x01, 0x0A, 0x04, 0x00, 0x00, 0xFF, 0xFF]),
        ]
    );
    let commit = walkplay::push_plan(10, true);
    assert_eq!(commit.len(), 15);
    assert_eq!(
        &commit[11..],
        &[
            PushStep::Packet(vec![0x01, 0x05]),
            PushStep::Packet(vec![0x01, 0x17]),
            PushStep::Packet(vec![0x01, 0x0A, 0x04, 0x00, 0x00, 0xFF, 0xFF]),
            PushStep::Packet(vec![0x01, 0x01]),
        ]
    );
    assert_eq!(walkplay::slot_request(), vec![0x80, 0x09, 0x00]);
    let mut reply = vec![0u8; 40];
    reply[35] = 101;
    assert_eq!(walkplay::active_slot(&reply), Some(101));
    assert_eq!(walkplay::active_slot(&reply[..30]), None);
    assert_eq!(walkplay::slot_activation(Some(101)), None);
    assert_eq!(walkplay::slot_activation(Some(3)), Some(vec![0x01, 0x01, 0x01, 101, 0x00]));
    assert_eq!(walkplay::slot_activation(None), Some(vec![0x01, 0x01, 0x01, 101, 0x00]));
}

#[test]
fn fiio_push_pins_the_count_and_saves_to_the_user_slot() {
    let plan = fiio::push_plan(2, 8, true);
    assert_eq!(
        plan,
        vec![
            PushStep::Gain,
            PushStep::Packet(vec![0xAA, 0x0A, 0, 0, 0x18, 1, 2, 0, 0xEE]),
            PushStep::Settle,
            PushStep::Band(0),
            PushStep::Band(1),
            PushStep::Settle,
            PushStep::Packet(vec![0xAA, 0x0A, 0, 0, 0x21, 1, 8, 0, 0xEE]),
        ]
    );
    assert_eq!(fiio::push_plan(10, 4, false).len(), 13);
}

#[test]
fn fiio_edits_land_in_a_user_slot() {
    assert_eq!(fiio::user_slot(Some(8)), (8, false));
    assert_eq!(fiio::user_slot(Some(9)), (9, false));
    assert_eq!(fiio::user_slot(Some(1)), (4, true));
    assert_eq!(fiio::user_slot(None), (4, true));
    let reply = [0xBB, 0x0B, 0, 0, 0x16, 1, 4, 0];
    assert!(fiio::reply_matches(&reply, 0x16));
    assert!(!fiio::reply_matches(&reply, 0x18));
    assert!(!fiio::reply_matches(&reply[..6], 0x16));
    assert!(fiio::switch_confirmed(Some(&reply), 4));
    assert!(!fiio::switch_confirmed(Some(&reply), 8));
    assert!(!fiio::switch_confirmed(None, 4));
    assert_eq!(fiio::refused(4), "Device refused to switch to preset 4");
}

#[test]
fn fiio_pulls_trust_the_band_index() {
    let count = [0xBB, 0x0B, 0, 0, 0x18, 1, 12, 0];
    assert_eq!(fiio::pull_count(&count, 10), 10);
    let count = [0xBB, 0x0B, 0, 0, 0x18, 1, 3, 0];
    assert_eq!(fiio::pull_count(&count, 10), 3);
    let band = [0xBB, 0x0B, 0, 0, 0x15, 8, 2, 0];
    assert_eq!(fiio::band_slot(&band, 3), Some(2));
    assert_eq!(fiio::band_slot(&band, 2), None);
}

#[test]
fn gain_registers_frame_as_twos_complement_bytes() {
    // −6.5 dB host pregain, scaled by 256: −1664 = 0xF980, little-endian.
    assert_eq!(moondrop::pregain_packet(-1664), vec![0x01, 0x23, 0, 0x80, 0xF9]);
    // −3 dB Walkplay register.
    assert_eq!(walkplay::global_gain_packet(-3), vec![0x01, 0x03, 0x02, 0x00, 0xFD]);
    // FiiO −2.5 dB in tenths: −25 = 0xFFE7, big-endian.
    assert_eq!(
        fiio::global_gain_packet(-25),
        vec![0xAA, 0x0A, 0, 0, 0x17, 2, 0xFF, 0xE7, 0, 0xEE]
    );
    assert_eq!(
        fiio::params_packet(3, 45, 1000, 71, fastpeq::offload::HwFilterType::HighShelf),
        vec![0xAA, 0x0A, 0, 0, 0x15, 8, 3, 0x00, 0x2D, 0x03, 0xE8, 0x00, 0x47, 2, 0, 0xEE]
    );
}
