use fastpeq::fiio;
use fastpeq::hardware::{detect, device_for_output, identify, DetectedDevice, DeviceInfo};
use fastpeq::moondrop::enable_packet;
use fastpeq::moondrop_family::{decode_version, le16, type_byte};
use fastpeq::offload::{HwFilterType, OffloadMode};
use fastpeq::model::FilterKind;
use fastpeq::walkplay::apply_packet;

fn info(vid: u16, pid: u16, product: &str, manufacturer: &str, path: &str, usage: u16) -> DeviceInfo {
    DeviceInfo {
        vendor_id: vid,
        product_id: pid,
        product: product.to_string(),
        manufacturer: manufacturer.to_string(),
        path: path.to_string(),
        usage_page: usage,
    }
}

#[test]
fn identify_matches_the_ka17_product_string() {
    let ka17 = info(0x2972, 0x0093, "FIIO KA17", "FiiO", "p", fiio::CONTROL_USAGE_PAGE);
    let d = fiio::identify(&ka17).expect("should identify");
    assert_eq!(d.model, "KA17");
    assert_eq!(d.max_filters, 10);
    assert!(d.user_pregain);
    let other = DeviceInfo {
        vendor_id: 0x1234,
        ..ka17.clone()
    };
    assert!(fiio::identify(&other).is_none());
    for up in [0xFF00u16, 0x000C] {
        let iface = DeviceInfo {
            usage_page: up,
            ..ka17.clone()
        };
        assert!(fiio::identify(&iface).is_none());
    }
}

#[test]
fn short_replies_decode_without_panicking() {
    let short = [0x80u8, 0x0C];
    assert_eq!(decode_version(&short), "0.0.0");
}

#[test]
fn version_replies_read_their_text() {
    let mut p = vec![0x80u8, 0x0C, 0x00];
    p.extend_from_slice(b" V0.5.0\x01\x00junk");
    assert_eq!(decode_version(&p), "V0.5.0");
    assert_eq!(decode_version(&[0x80, 0x0C, 0x00, 1, 2, 3]), "1.2.3");
    let reply = [0xBBu8, 0x0B, 0, 0, 0x0B, 4, b'1', b'.', b'2', b'3', 0xEE, b'9'];
    assert_eq!(fiio::decode_version(&reply), "1.23");
}

#[test]
fn negative_values_encode_twos_complement() {
    assert_eq!(le16(-1), [0xFF, 0xFF]);
    assert_eq!(le16(-768), [0x00, 0xFD]);
    assert_eq!(le16(1000), [0xE8, 0x03]);
    assert_eq!(le16(65536 + 2), [0x02, 0x00]);
}

#[test]
fn filter_classes_map_to_device_codes() {
    assert_eq!(type_byte(HwFilterType::Peak), 2);
    assert_eq!(type_byte(HwFilterType::LowShelf), 1);
    assert_eq!(type_byte(HwFilterType::HighShelf), 3);
    assert_eq!(fiio::type_byte(HwFilterType::Peak), 0);
    assert_eq!(fiio::type_byte(HwFilterType::HighShelf), 2);
    assert_eq!(HwFilterType::from_kind(FilterKind::LowShelfQ), Some(HwFilterType::LowShelf));
    assert_eq!(HwFilterType::from_kind(FilterKind::HighShelf), Some(HwFilterType::HighShelf));
    assert_eq!(HwFilterType::from_kind(FilterKind::Notch), None);
    assert_eq!(OffloadMode::default(), OffloadMode::ApoOnly);
}

#[test]
fn fixed_packets_match_the_protocols() {
    assert_eq!(enable_packet(3), vec![0x01, 0x0A, 3, 0, 255, 255, 255]);
    assert_eq!(apply_packet(), vec![0x01, 0x0A, 0x04, 0x00, 0x00, 0xFF, 0xFF]);
    assert_eq!(
        fiio::set1_packet(0x16, 4),
        vec![0xAA, 0x0A, 0, 0, 0x16, 1, 4, 0, 0xEE]
    );
    assert_eq!(fiio::get_packet(0x0B), vec![0xBB, 0x0B, 0, 0, 0x0B, 0, 0, 0xEE]);
    assert_eq!(
        fiio::get_band_packet(2),
        vec![0xBB, 0x0B, 0, 0, 0x15, 1, 2, 0, 0xEE]
    );
}

#[test]
fn detect_prefers_the_vendor_collection_once_per_device() {
    let infos = vec![
        info(0x0001, 0x0002, "Keyboard", "Acme", "kbd", 0x0001),
        info(0x35D8, 0x0011, "DHA15", "MOONDROP", "dha-consumer", 0x000C),
        info(0x35D8, 0x0011, "dha15", " MOONDROP ", "dha-vendor", 0xFF00),
        info(0x3302, 0x1234, "Space Pro", "", "sp", 0xFF00),
        info(0x9999, 0x1234, "Space Pro", "Other", "fake", 0xFF00),
    ];
    let found = detect(&infos);
    assert_eq!(found.len(), 2);
    assert_eq!(found[0].id, "dha-vendor");
    assert_eq!(found[0].name, "MOONDROP DHA15");
    assert_eq!(found[0].manufacturer, "MOONDROP");
    assert_eq!(found[0].max_filters, 8);
    assert_eq!(found[1].name, "Space Pro");
    assert_eq!(found[1].max_filters, 10);
    assert!(identify(&infos[0]).is_none());
}

#[test]
fn output_names_pick_the_device_whose_model_they_contain() {
    let devices = vec![DetectedDevice {
        id: "x".to_string(),
        name: "MOONDROP DHA15".to_string(),
        manufacturer: "MOONDROP".to_string(),
        model: "DHA15".to_string(),
        max_filters: 8,
        user_pregain: true,
    }];
    let d = device_for_output("DAC/Amp (Moondrop dha15)", &devices).unwrap();
    assert_eq!(d.id, "x");
    assert!(device_for_output("Speakers (Realtek(R) Audio)", &devices).is_none());
}

#[test]
fn walkplay_identify_matches_the_space_pro_product_string() {
    let info = DeviceInfo {
        vendor_id: 0x3302,
        product_id: 0x4307,
        product: "TANCHJIM-SPACE PRO AT".to_string(),
        manufacturer: "TANCHJIM".to_string(),
        path: "p".to_string(),
        usage_page: 0x000C,
    };
    let d = identify(&info).expect("should identify");
    assert_eq!(d.model, "Space Pro");
    assert_eq!(d.max_filters, 10);
    assert!(d.user_pregain);

    // Same string on another vendor id is not claimed.
    let other = DeviceInfo {
        vendor_id: 0x1234,
        ..info
    };
    assert!(identify(&other).is_none());
}
