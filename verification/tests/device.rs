use dt_cert_uploader::device::{device_by_name, parse_device_type, DeviceType};
use dt_cert_uploader::text::{parse_unsigned, push_decimal, push_hex_byte, split_words};

#[test]
fn device_table() {
    let t = DeviceType::DronetagTransmitter;
    let r = DeviceType::DronetagRider;
    assert_eq!((t.mux_addr(), t.settings_mux_addr(), t.baud_rate()), (0x11, 0x13, 500_000));
    assert_eq!((r.mux_addr(), r.settings_mux_addr(), r.baud_rate()), (0x23, 0x25, 115_200));
    assert_eq!(t.display_name(), "Dronetag Transmitter");
    assert_eq!(r.display_name(), "Dronetag RIDER");
    assert_eq!(DeviceType::all(), &[t, r]);
}

#[test]
fn channels_are_distinct() {
    let mut channels: Vec<u8> = Vec::new();
    for d in DeviceType::all() {
        channels.push(d.mux_addr());
        channels.push(d.settings_mux_addr());
    }
    channels.sort();
    channels.dedup();
    assert_eq!(channels.len(), 4);
}

#[test]
fn menu_labels() {
    assert_eq!(
        DeviceType::DronetagTransmitter.menu_label(),
        "Dronetag Transmitter (0x11, 500000 baud)"
    );
    assert_eq!(DeviceType::DronetagRider.menu_label(), "Dronetag RIDER (0x23, 115200 baud)");
}

#[test]
fn device_names_in_any_case() {
    assert_eq!(parse_device_type("rider"), Ok(DeviceType::DronetagRider));
    assert_eq!(parse_device_type("RiDeR"), Ok(DeviceType::DronetagRider));
    assert_eq!(parse_device_type("TRANSMITTER"), Ok(DeviceType::DronetagTransmitter));
    assert_eq!(
        parse_device_type("Rover"),
        Err("Unknown device type 'Rover'. Valid options: transmitter, rider".to_string())
    );
    assert_eq!(
        parse_device_type(""),
        Err("Unknown device type ''. Valid options: transmitter, rider".to_string())
    );
    assert_eq!(device_by_name(&"RIDER".to_string()), None);
    assert_eq!(device_by_name(&"rider".to_string()), Some(DeviceType::DronetagRider));
}

#[test]
fn numbers_as_text() {
    for n in [0u64, 7, 9, 10, 99, 100, 5120, u64::MAX] {
        let mut s = "n=".to_string();
        push_decimal(&mut s, n);
        assert_eq!(s, format!("n={}", n));
    }
    for b in 0u8..=255 {
        let mut s = String::new();
        push_hex_byte(&mut s, b);
        assert_eq!(s, format!("{:02X}", b));
    }
}

#[test]
fn numbers_from_text() {
    let cases = [
        "0", "1", "8883", "65535", "65536", "70000", "+5", "++5", "+", "", "-0", "-1", "00012", " 1", "1 ",
        "1x", "x", "4294967295", "4294967296", "99999999999999999999999", "000000000000000000000000000001",
    ];
    for c in cases {
        assert_eq!(parse_unsigned(c, 0xFFFF), c.parse::<u16>().ok().map(u32::from));
        assert_eq!(parse_unsigned(c, 0xFFFF_FFFF), c.parse::<u32>().ok());
    }
}

#[test]
fn words_are_split_at_white_space() {
    assert_eq!(split_words("*.pem *.crt *.cer"), vec!["*.pem", "*.crt", "*.cer"]);
    assert_eq!(split_words("  a\t\nbc\u{3000}d "), vec!["a", "bc", "d"]);
    assert_eq!(split_words(""), Vec::<String>::new());
    assert_eq!(split_words(" \u{85} "), Vec::<String>::new());
}

#[test]
fn white_space_is_the_unicode_property() {
    for c in '\u{0}'..='\u{10FFFF}' {
        let u = c as u32;
        let listed = (0x9..=0xD).contains(&u)
            || (0x2000..=0x200A).contains(&u)
            || [0x20, 0x85, 0xA0, 0x1680, 0x2028, 0x2029, 0x202F, 0x205F, 0x3000].contains(&u);
        assert_eq!(split_words(&c.to_string()).is_empty(), listed);
        assert_eq!(c.to_string().trim().is_empty(), listed);
    }
}
