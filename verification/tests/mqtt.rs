use dt_cert_uploader::mqtt::MqttSettings;

const DEFAULT_TEXT: &str = "{\"dt_cloud\":{\"cloud_client\":\"DT_TRANS_MQTT_CLIENT\"},\"dt_trans_mqtt\":{\"dns_addr\":\"dt-hub-2.azure-devices.net\",\"f_end_topic\":\"device/%s/f_end\",\"f_start_topic\":\"device/%s/f_start\",\"ipaddr\":\"\",\"password\":\"\",\"port\":8883,\"r_end_topic\":\"device/%s/r_end\",\"r_start_topic\":\"device/%s/r_start\",\"sec_tag\":1,\"status_topic\":\"device/%s/status\",\"telemetry_topic\":\"device/%s/telem\",\"user_name\":\"\"},\"nested\":true,\"save\":true}";

fn fields(m: &MqttSettings) -> [&str; 12] {
    [
        &m.dns_addr,
        &m.ipaddr,
        &m.port,
        &m.sec_tag,
        &m.user_name,
        &m.password,
        &m.telemetry_topic,
        &m.status_topic,
        &m.f_start_topic,
        &m.f_end_topic,
        &m.r_start_topic,
        &m.r_end_topic,
    ]
}

const DEFAULTS: [&str; 12] = [
    "dt-hub-2.azure-devices.net",
    "",
    "8883",
    "1",
    "",
    "",
    "device/%s/telem",
    "device/%s/status",
    "device/%s/f_start",
    "device/%s/f_end",
    "device/%s/r_start",
    "device/%s/r_end",
];

fn value(text: &str) -> serde_json::Value {
    serde_json::from_str(text).unwrap()
}

#[test]
fn default_settings() {
    assert_eq!(fields(&MqttSettings::default()), DEFAULTS);
}

#[test]
fn missing_settings_are_default() {
    for text in ["{}", "null", "[1, 2]", "\"port\"", "5", "{\"other\": 1}"] {
        assert_eq!(fields(&MqttSettings::from_json(&value(text))), DEFAULTS);
    }
}

#[test]
fn settings_from_json() {
    let m = MqttSettings::from_json(&value(
        "{\"dns_addr\": \"h\\u00e9\", \"ipaddr\": 5, \"port\": 1883, \"sec_tag\": \"2\", \"user_name\": \"u\", \"password\": null, \"status_topic\": \" s \", \"r_end_topic\": [1]}",
    ));
    assert_eq!(m.dns_addr, "hé");
    assert_eq!(m.ipaddr, "");
    assert_eq!(m.port, "1883");
    // A number is taken as its JSON text, so a string keeps its quotes.
    assert_eq!(m.sec_tag, "\"2\"");
    assert_eq!(m.user_name, "u");
    assert_eq!(m.password, "");
    assert_eq!(m.status_topic, " s ");
    assert_eq!(m.r_end_topic, "device/%s/r_end");
    let m = MqttSettings::from_json(&value("{\"port\": {\"b\": 1, \"a\": [true, null, 1.5]}, \"sec_tag\": -3}"));
    assert_eq!(m.port, "{\"a\":[true,null,1.5],\"b\":1}");
    assert_eq!(m.sec_tag, "-3");
}

#[test]
fn settings_from_a_reply() {
    assert!(MqttSettings::from_reply_text("no json").is_none());
    assert!(MqttSettings::from_reply_text("{\"port\": 1}").is_none());
    let m = MqttSettings::from_reply_text("{\"dt_trans_mqtt\": {\"port\": 1}}").unwrap();
    assert_eq!(m.port, "1");
    assert_eq!(m.sec_tag, "1");
    assert!(MqttSettings::from_reply(&value("{\"dt_trans_mqtt\": 1}")).is_some());
    assert!(MqttSettings::from_reply(&value("[]")).is_none());
}

#[test]
fn default_settings_as_text() {
    assert_eq!(MqttSettings::default().to_json_string(), Ok(DEFAULT_TEXT.to_string()));
    assert_eq!(MqttSettings::default().to_json(), Ok(value(DEFAULT_TEXT)));
}

#[test]
fn sent_settings_read_back_tidied() {
    let mut m = MqttSettings::default();
    m.dns_addr = "\u{a0} host \t".to_string();
    m.port = " +0443\n".to_string();
    m.sec_tag = "4294967295".to_string();
    m.password = "  \"q\\ \u{1}é  ".to_string();
    let text = m.to_json_string().unwrap();
    let back = MqttSettings::from_reply_text(&text).unwrap();
    assert_eq!(back.dns_addr, "host");
    assert_eq!(back.port, "443");
    assert_eq!(back.sec_tag, "4294967295");
    assert_eq!(back.password, "\"q\\ \u{1}é");
    assert_eq!(back.status_topic, "device/%s/status");
    assert_eq!(back.to_json_string(), Ok(text));
}

#[test]
fn invalid_numbers_are_refused() {
    for port in ["", "65536", "-1", "8883x", "+"] {
        let mut m = MqttSettings::default();
        m.port = port.to_string();
        m.sec_tag = "bad".to_string();
        assert_eq!(m.to_json_string(), Err(format!("Invalid port number: '{}'", port)));
    }
    let mut m = MqttSettings::default();
    m.sec_tag = " 4294967296 ".to_string();
    assert_eq!(m.to_json_string(), Err("Invalid sec_tag: ' 4294967296 '".to_string()));
    assert_eq!(m.to_json(), Err("Invalid sec_tag: ' 4294967296 '".to_string()));
}
