use dt_cert_uploader::device::DeviceType;
use dt_cert_uploader::mux::MuxSlipSerial;
use dt_cert_uploader::pieces::take_text;
use dt_cert_uploader::settings::{
    read_settings, reply_is_complete, reply_is_overdue, SettingsEvent, SettingsRead, SettingsStep,
};

fn describe(step: SettingsStep) -> String {
    match step {
        SettingsStep::OpenPort { port, baud_rate, timeout_secs } => {
            format!("open {} {} {}", port, baud_rate, timeout_secs)
        }
        SettingsStep::Send(bytes) => format!("send {:?}", bytes),
        SettingsStep::Flush => "flush".to_string(),
        SettingsStep::Receive { timeout_secs } => format!("receive {}", timeout_secs),
        SettingsStep::Finish(r) => format!("finish {:?}", r),
    }
}

fn receiving() -> SettingsRead {
    let mut r = read_settings("COM3", &DeviceType::DronetagRider);
    for _ in 0..3 {
        r.advance(SettingsEvent::Done);
    }
    r
}

fn frame(addr: u8, text: &str) -> SettingsEvent {
    SettingsEvent::Frame(addr, text.as_bytes().to_vec())
}

#[test]
fn read_steps_in_order() {
    let mut r = read_settings("COM3", &DeviceType::DronetagRider);
    for want in ["open COM3 115200 4", "send [37, 123, 125, 10]", "flush", "receive 4"] {
        assert_eq!(describe(r.step()), want);
        r.advance(SettingsEvent::Done);
    }
    assert_eq!(describe(r.step()), "receive 4");
}

#[test]
fn reply_in_several_frames() {
    let mut r = receiving();
    r.advance(frame(0x25, "{\"a\": {\"ž\""));
    r.advance(frame(0x23, "}}"));
    assert_eq!(describe(r.step()), "receive 4");
    r.advance(frame(0x25, ": 1}"));
    assert_eq!(describe(r.step()), "receive 4");
    r.advance(frame(0x25, "}"));
    assert_eq!(describe(r.step()), format!("finish {:?}", Ok::<&str, &str>("{\"a\": {\"ž\": 1}}")));
    r.advance(frame(0x25, "{"));
    assert_eq!(describe(r.step()), format!("finish {:?}", Ok::<&str, &str>("{\"a\": {\"ž\": 1}}")));
}

#[test]
fn invalid_utf8_brings_nothing() {
    let mut r = receiving();
    r.advance(SettingsEvent::Frame(0x25, vec![b'{', 0xFF, b'}']));
    assert_eq!(describe(r.step()), "receive 4");
    r.advance(frame(0x25, "ok {}"));
    assert_eq!(describe(r.step()), "finish Ok(\"ok {}\")");
}

#[test]
fn text_before_a_brace_is_kept() {
    let mut r = receiving();
    r.advance(frame(0x25, "hello"));
    assert_eq!(describe(r.step()), "receive 4");
    r.advance(frame(0x25, "{}"));
    assert_eq!(describe(r.step()), "finish Ok(\"hello{}\")");
}

#[test]
fn failures_of_a_read() {
    let why = || SettingsEvent::Failed("why".to_string());
    let reports = [
        "Failed to open serial port 'COM3': why",
        "Failed to send settings request: why",
        "Failed to flush: why",
        "Failed to read frame: why",
    ];
    for (k, report) in reports.iter().enumerate() {
        let mut r = read_settings("COM3", &DeviceType::DronetagTransmitter);
        for _ in 0..k {
            r.advance(SettingsEvent::Done);
        }
        r.advance(why());
        assert_eq!(describe(r.step()), format!("finish Err({:?})", report));
    }
    let mut r = receiving();
    r.advance(SettingsEvent::TimedOut);
    assert_eq!(describe(r.step()), "finish Err(\"Timeout waiting for settings response from device\")");
}

#[test]
fn answers_out_of_place_change_nothing() {
    let mut r = read_settings("COM3", &DeviceType::DronetagRider);
    r.advance(SettingsEvent::TimedOut);
    r.advance(frame(0x25, "{}"));
    assert_eq!(describe(r.step()), "open COM3 115200 4");
    let mut r = receiving();
    r.advance(SettingsEvent::Done);
    assert_eq!(describe(r.step()), "receive 4");
}

/// Sends the bytes of `reply` in pieces that end at the given places, with a frame of
/// another channel after each, and checks that the read ends with the last piece only.
fn sent_in_pieces(reply: &str, cuts: &[usize]) {
    let mut r = receiving();
    let bytes = reply.as_bytes();
    let mut from = 0;
    for to in cuts.iter().copied().chain([bytes.len()]) {
        assert_eq!(describe(r.step()), "receive 4");
        r.advance(SettingsEvent::Frame(0x25, bytes[from..to].to_vec()));
        r.advance(frame(0x23, "}\"{"));
        from = to;
    }
    assert_eq!(describe(r.step()), format!("finish {:?}", Ok::<&str, &str>(reply)));
}

#[test]
fn braces_in_strings_do_not_count() {
    let mut r = receiving();
    let bytes = MuxSlipSerial::slip_encode(b"\x25{\"a\":\"}\"}");
    assert_eq!(bytes.last(), Some(&0x0A));
    let decoded = MuxSlipSerial::slip_decode(&bytes[..bytes.len() - 1]);
    r.advance(SettingsEvent::Frame(decoded[0], decoded[1..].to_vec()));
    assert_eq!(describe(r.step()), format!("finish {:?}", Ok::<&str, &str>("{\"a\":\"}\"}")));

    let mut r = receiving();
    r.advance(frame(0x25, "{\"a\":\"}"));
    assert_eq!(describe(r.step()), "receive 4");
    r.advance(frame(0x25, "\"}"));
    assert_eq!(describe(r.step()), format!("finish {:?}", Ok::<&str, &str>("{\"a\":\"}\"}")));
}

#[test]
fn reply_cut_anywhere() {
    let reply = "{\"user\":\"a\\\"}b\\\\\",\"pass\":\"{é€😀}\",\"n\":{}}";
    sent_in_pieces(reply, &[]);
    for i in 0..reply.len() {
        sent_in_pieces(reply, &[i]);
        for j in i..reply.len() {
            sent_in_pieces(reply, &[i, j]);
        }
    }
    let every: Vec<usize> = (1..reply.len()).collect();
    sent_in_pieces(reply, &every);
}

#[test]
fn character_cut_between_frames() {
    let mut r = receiving();
    r.advance(SettingsEvent::Frame(0x25, b"{\"a\":\"\xC3".to_vec()));
    r.advance(SettingsEvent::Frame(0x23, b"\xA8".to_vec()));
    r.advance(SettingsEvent::Frame(0x25, b"\xA9\"}".to_vec()));
    assert_eq!(describe(r.step()), format!("finish {:?}", Ok::<&str, &str>("{\"a\":\"é\"}")));
}

/// The step after the given payloads came in on the settings channel.
fn after(payloads: &[&[u8]]) -> String {
    let mut r = receiving();
    for payload in payloads {
        r.advance(SettingsEvent::Frame(0x25, payload.to_vec()));
    }
    describe(r.step())
}

#[test]
fn cut_character_that_never_goes_on_brings_nothing() {
    assert_eq!(after(&[b"{\xE2\x82", b"x}"]), "receive 4");
    assert_eq!(after(&[b"{\xE2", b"\xFF}", b"\x82\xAC", b"}"]), "receive 4");
    assert_eq!(after(&[b"{\xE2", b"-\xC3", b"\xA9}"]), "receive 4");
    assert_eq!(after(&[b"{\xC3", b"}"]), "receive 4");
    assert_eq!(after(&[b"{\"a\":\xE2\x82", b"1}"]), "receive 4");
    assert_eq!(after(&[b"{}\xC3"]), "receive 4");
}

#[test]
fn damaged_payloads_count_as_nothing() {
    assert_eq!(after(&[b"A\xC3", b"{}"]), "finish Ok(\"{}\")");
    assert_eq!(after(&[b"\xC3", b"\xC3", b"{}"]), "finish Ok(\"{}\")");
    assert_eq!(after(&[b"x\xE2", b"\x82", b"{}"]), "finish Ok(\"{}\")");
    assert_eq!(after(&[b"ok", b"y\xE2", b"\xFF", b"\x82\xAC", b"{}"]), "finish Ok(\"ok{}\")");
}

#[test]
fn completed_cut_is_joined() {
    assert_eq!(after(&[b"{\xE2", b"", b"\x82", b"\xAC}"]), "finish Ok(\"{€}\")");
    assert_eq!(after(&[b"x\xC3", b"{\xC3", b"\xA9}"]), "finish Ok(\"{é}\")");
    assert_eq!(after(&[b"{}\xC3", b"\xA9"]), "finish Ok(\"{}é\")");
    assert_eq!(after(&[b"{\xC3", b"\xA9\xC3", b"\xA8}"]), "finish Ok(\"{éè}\")");
}

#[test]
fn text_is_taken_from_bytes() {
    let taken = |bytes: &[u8]| take_text(bytes);
    assert_eq!(taken(b""), Some((String::new(), vec![])));
    assert_eq!(taken("né".as_bytes()), Some(("né".to_string(), vec![])));
    assert_eq!(taken(b"n\xC3"), Some(("n".to_string(), vec![0xC3])));
    assert_eq!(taken(b"\xF0\x9F\x98"), Some((String::new(), vec![0xF0, 0x9F, 0x98])));
    for wrong in [
        &b"\xFF"[..], b"\x80", b"\xC1", b"\xF5", b"a\x80b", b"\xE0\x9F", b"\xED\xA0", b"\xF0\x8F",
        b"\xF4\x90", b"\xF1\x80\xC0", b"\xC3(", b"\xC3\xC3",
    ] {
        assert_eq!(taken(wrong), None);
    }
}

#[test]
fn starts_of_every_character() {
    for c in ('\0'..=char::MAX).step_by(61).chain(['\u{D7FF}', '\u{E000}', '\u{7FF}', '\u{800}']) {
        let mut buf = [0u8; 4];
        let bytes = c.encode_utf8(&mut buf).as_bytes();
        for n in 1..bytes.len() {
            assert_eq!(take_text(&bytes[..n]), Some((String::new(), bytes[..n].to_vec())));
        }
        assert_eq!(take_text(bytes), Some((c.to_string(), vec![])));
    }
}

#[test]
fn reply_is_awaited_for_four_seconds() {
    assert!(!reply_is_overdue(0));
    assert!(!reply_is_overdue(4_000_000_000));
    assert!(reply_is_overdue(4_000_000_001));
    assert!(reply_is_overdue(u128::MAX));
}

#[test]
fn complete_texts() {
    assert!(reply_is_complete("{\"a\":\"}\"}"));
    assert!(reply_is_complete("{\"\\\"{\":1}"));
    assert!(reply_is_complete("say \"{}"));
    assert!(!reply_is_complete("{\"a\":\"}"));
    assert!(!reply_is_complete("{\"a\\\"}"));
    assert!(!reply_is_complete("{\"a}"));
    assert!(reply_is_complete("{}"));
    assert!(reply_is_complete("x{a{b}c}y"));
    assert!(reply_is_complete("}{"));
    assert!(!reply_is_complete(""));
    assert!(!reply_is_complete("no braces"));
    assert!(!reply_is_complete("{{}"));
    assert!(!reply_is_complete("{}}"));
    assert!(!reply_is_complete("}"));
}
