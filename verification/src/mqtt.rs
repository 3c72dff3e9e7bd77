//! The MQTT settings: their default, and how they are read from and written to the JSON
//! that a device exchanges.

use vstd::prelude::*;
use vstd::string::*;

use crate::json::{
    bool_value, compact, empty_object, get_member, is_flat, is_simple, is_two_level, json_member,
    json_tree, number_value, parse_json, parsed_json, render_json, set_member, text_value, Json,
};
use crate::text::{
    decimal, is_digit, law_decimal_round_trip, law_trim_is_idempotent, lemma_decimal_value,
    parse_unsigned, trimmed, unsigned_value,
};

verus! {

/// The MQTT settings as they are edited: every field is text.
pub struct MqttSettings {
    pub dns_addr: String,
    pub ipaddr: String,
    pub port: String,
    pub sec_tag: String,
    pub user_name: String,
    pub password: String,
    pub telemetry_topic: String,
    pub status_topic: String,
    pub f_start_topic: String,
    pub f_end_topic: String,
    pub r_start_topic: String,
    pub r_end_topic: String,
}

#[verifier::ext_equal]
pub struct MqttView {
    pub dns_addr: Seq<char>,
    pub ipaddr: Seq<char>,
    pub port: Seq<char>,
    pub sec_tag: Seq<char>,
    pub user_name: Seq<char>,
    pub password: Seq<char>,
    pub telemetry_topic: Seq<char>,
    pub status_topic: Seq<char>,
    pub f_start_topic: Seq<char>,
    pub f_end_topic: Seq<char>,
    pub r_start_topic: Seq<char>,
    pub r_end_topic: Seq<char>,
}

impl View for MqttSettings {
    type V = MqttView;

    open spec fn view(&self) -> MqttView {
        MqttView {
            dns_addr: self.dns_addr@,
            ipaddr: self.ipaddr@,
            port: self.port@,
            sec_tag: self.sec_tag@,
            user_name: self.user_name@,
            password: self.password@,
            telemetry_topic: self.telemetry_topic@,
            status_topic: self.status_topic@,
            f_start_topic: self.f_start_topic@,
            f_end_topic: self.f_end_topic@,
            r_start_topic: self.r_start_topic@,
            r_end_topic: self.r_end_topic@,
        }
    }
}

pub open spec fn default_settings() -> MqttView {
    MqttView {
        dns_addr: "dt-hub-2.azure-devices.net"@,
        ipaddr: Seq::empty(),
        port: "8883"@,
        sec_tag: "1"@,
        user_name: Seq::empty(),
        password: Seq::empty(),
        telemetry_topic: "device/%s/telem"@,
        status_topic: "device/%s/status"@,
        f_start_topic: "device/%s/f_start"@,
        f_end_topic: "device/%s/f_end"@,
        r_start_topic: "device/%s/r_start"@,
        r_end_topic: "device/%s/r_end"@,
    }
}

/// The member `key` where it is a string, or else `default`.
pub open spec fn string_or(tree: Json, key: Seq<char>, default: Seq<char>) -> Seq<char> {
    match json_member(tree, key) {
        Some(Json::Text(s)) => s,
        _ => default,
    }
}

/// The compact text of the member `key` where there is one, or else `default`.
pub open spec fn text_or(tree: Json, key: Seq<char>, default: Seq<char>) -> Seq<char> {
    match json_member(tree, key) {
        Some(member) => compact(member),
        None => default,
    }
}

/// The settings that the JSON value `tree` holds; what it lacks has its default.
pub open spec fn settings_in(tree: Json) -> MqttView {
    let d = default_settings();
    MqttView {
        dns_addr: string_or(tree, "dns_addr"@, d.dns_addr),
        ipaddr: string_or(tree, "ipaddr"@, d.ipaddr),
        port: text_or(tree, "port"@, d.port),
        sec_tag: text_or(tree, "sec_tag"@, d.sec_tag),
        user_name: string_or(tree, "user_name"@, d.user_name),
        password: string_or(tree, "password"@, d.password),
        telemetry_topic: string_or(tree, "telemetry_topic"@, d.telemetry_topic),
        status_topic: string_or(tree, "status_topic"@, d.status_topic),
        f_start_topic: string_or(tree, "f_start_topic"@, d.f_start_topic),
        f_end_topic: string_or(tree, "f_end_topic"@, d.f_end_topic),
        r_start_topic: string_or(tree, "r_start_topic"@, d.r_start_topic),
        r_end_topic: string_or(tree, "r_end_topic"@, d.r_end_topic),
    }
}

/// The settings that a reply of the device holds, where it has a section of them.
pub open spec fn settings_in_reply(tree: Json) -> Option<MqttView> {
    match json_member(tree, "dt_trans_mqtt"@) {
        Some(section) => Some(settings_in(section)),
        None => None,
    }
}

/// The number in the field `s`, where white space around it is ignored.
pub open spec fn field_number(s: Seq<char>) -> Option<nat> {
    unsigned_value(trimmed(s))
}

pub open spec fn port_is_valid(v: MqttView) -> bool {
    field_number(v.port) matches Some(n) && n <= u16::MAX
}

pub open spec fn sec_tag_is_valid(v: MqttView) -> bool {
    field_number(v.sec_tag) matches Some(n) && n <= u32::MAX
}

/// The section of MQTT settings in what is sent to the device.
pub open spec fn mqtt_section(v: MqttView) -> Json {
    Json::Object(
        Map::<Seq<char>, Json>::empty().insert("dns_addr"@, Json::Text(trimmed(v.dns_addr))).insert(
            "ipaddr"@,
            Json::Text(trimmed(v.ipaddr)),
        ).insert("port"@, Json::Number(decimal(field_number(v.port)->0))).insert(
            "sec_tag"@,
            Json::Number(decimal(field_number(v.sec_tag)->0)),
        ).insert("user_name"@, Json::Text(trimmed(v.user_name))).insert(
            "password"@,
            Json::Text(trimmed(v.password)),
        ).insert("telemetry_topic"@, Json::Text(trimmed(v.telemetry_topic))).insert(
            "status_topic"@,
            Json::Text(trimmed(v.status_topic)),
        ).insert("f_start_topic"@, Json::Text(trimmed(v.f_start_topic))).insert(
            "f_end_topic"@,
            Json::Text(trimmed(v.f_end_topic)),
        ).insert("r_start_topic"@, Json::Text(trimmed(v.r_start_topic))).insert(
            "r_end_topic"@,
            Json::Text(trimmed(v.r_end_topic)),
        ),
    )
}

/// The section that makes the device use its MQTT client.
pub open spec fn cloud_section() -> Json {
    Json::Object(
        Map::<Seq<char>, Json>::empty().insert(
            "cloud_client"@,
            Json::Text("DT_TRANS_MQTT_CLIENT"@),
        ),
    )
}

/// What is sent to the device so that it takes over and saves the settings `v`.
pub open spec fn settings_document(v: MqttView) -> Json {
    Json::Object(
        Map::<Seq<char>, Json>::empty().insert("nested"@, Json::Bool(true)).insert(
            "save"@,
            Json::Bool(true),
        ).insert("dt_cloud"@, cloud_section()).insert("dt_trans_mqtt"@, mqtt_section(v)),
    )
}

/// The complaint about settings that cannot be sent.
pub open spec fn settings_complaint(v: MqttView) -> Seq<char> {
    if !port_is_valid(v) {
        "Invalid port number: '"@ + v.port + "'"@
    } else {
        "Invalid sec_tag: '"@ + v.sec_tag + "'"@
    }
}

/// The settings `v` as they come back after they were sent: without white space around
/// them, and with the numbers written plainly.
pub open spec fn tidied(v: MqttView) -> MqttView {
    MqttView {
        dns_addr: trimmed(v.dns_addr),
        ipaddr: trimmed(v.ipaddr),
        port: decimal(field_number(v.port)->0),
        sec_tag: decimal(field_number(v.sec_tag)->0),
        user_name: trimmed(v.user_name),
        password: trimmed(v.password),
        telemetry_topic: trimmed(v.telemetry_topic),
        status_topic: trimmed(v.status_topic),
        f_start_topic: trimmed(v.f_start_topic),
        f_end_topic: trimmed(v.f_end_topic),
        r_start_topic: trimmed(v.r_start_topic),
        r_end_topic: trimmed(v.r_end_topic),
    }
}

impl Default for MqttSettings {
    fn default() -> (r: Self)
        ensures
            r@ == default_settings(),
    {
        MqttSettings {
            dns_addr: "dt-hub-2.azure-devices.net".to_string(),
            ipaddr: String::new(),
            port: "8883".to_string(),
            sec_tag: "1".to_string(),
            user_name: String::new(),
            password: String::new(),
            telemetry_topic: "device/%s/telem".to_string(),
            status_topic: "device/%s/status".to_string(),
            f_start_topic: "device/%s/f_start".to_string(),
            f_end_topic: "device/%s/f_end".to_string(),
            r_start_topic: "device/%s/r_start".to_string(),
            r_end_topic: "device/%s/r_end".to_string(),
        }
    }
}

fn get_str(val: &serde_json::Value, key: &str, default: &str) -> (r: String)
    ensures
        r@ == string_or(json_tree(*val), key@, default@),
{
    match get_member(val, key) {
        Some(member) => match member.as_str() {
            Some(s) => s.to_string(),
            None => default.to_string(),
        },
        None => default.to_string(),
    }
}

fn get_num(val: &serde_json::Value, key: &str, default: &str) -> (r: String)
    ensures
        r@ == text_or(json_tree(*val), key@, default@),
{
    match get_member(val, key) {
        Some(member) => match render_json(member) {
            Ok(text) => text,
            Err(_) => default.to_string(),
        },
        None => default.to_string(),
    }
}

fn complaint(start: &str, field: &str) -> (r: String)
    ensures
        r@ == start@ + field@ + "'"@,
{
    let mut s = start.to_string();
    s.append(field);
    s.append("'");
    s
}

impl MqttSettings {
    /// The settings that the JSON value holds; what it lacks has its default.
    pub fn from_json(val: &serde_json::Value) -> (r: Self)
        ensures
            r@ == settings_in(json_tree(*val)),
    {
        proof {
            reveal_strlit("");
            assert(""@ =~= Seq::<char>::empty());
        }
        MqttSettings {
            dns_addr: get_str(val, "dns_addr", "dt-hub-2.azure-devices.net"),
            ipaddr: get_str(val, "ipaddr", ""),
            port: get_num(val, "port", "8883"),
            sec_tag: get_num(val, "sec_tag", "1"),
            user_name: get_str(val, "user_name", ""),
            password: get_str(val, "password", ""),
            telemetry_topic: get_str(val, "telemetry_topic", "device/%s/telem"),
            status_topic: get_str(val, "status_topic", "device/%s/status"),
            f_start_topic: get_str(val, "f_start_topic", "device/%s/f_start"),
            f_end_topic: get_str(val, "f_end_topic", "device/%s/f_end"),
            r_start_topic: get_str(val, "r_start_topic", "device/%s/r_start"),
            r_end_topic: get_str(val, "r_end_topic", "device/%s/r_end"),
        }
    }

    /// The settings that a reply of the device holds, where it has a section of them.
    pub fn from_reply(reply: &serde_json::Value) -> (r: Option<Self>)
        ensures
            r is Some <==> settings_in_reply(json_tree(*reply)) is Some,
            r matches Some(m) ==> settings_in_reply(json_tree(*reply)) == Some(m@),
    {
        match get_member(reply, "dt_trans_mqtt") {
            Some(section) => Some(Self::from_json(section)),
            None => None,
        }
    }

    /// The settings in the text of a reply, where it is JSON with a section of them.
    pub fn from_reply_text(json: &str) -> (r: Option<Self>)
        ensures
            r is Some <==> (parsed_json(json@) matches Some(tree) && settings_in_reply(
                tree,
            ) is Some),
            r matches Some(m) ==> settings_in_reply(parsed_json(json@)->0) == Some(m@),
    {
        match parse_json(json) {
            Ok(reply) => Self::from_reply(&reply),
            Err(_) => None,
        }
    }

    /// What is sent to the device so that it takes over and saves these settings, as a
    /// JSON value.
    pub fn to_json(&self) -> (r: Result<serde_json::Value, String>)
        ensures
            r is Ok <==> port_is_valid(self@) && sec_tag_is_valid(self@),
            r matches Ok(v) ==> json_tree(v) == settings_document(self@),
            r matches Err(e) ==> e@ == settings_complaint(self@),
    {
        let port = match parse_unsigned(self.port.as_str().trim(), 0xFFFF) {
            Some(n) => n,
            None => return Err(complaint("Invalid port number: '", self.port.as_str())),
        };
        let sec_tag = match parse_unsigned(self.sec_tag.as_str().trim(), 0xFFFF_FFFF) {
            Some(n) => n,
            None => return Err(complaint("Invalid sec_tag: '", self.sec_tag.as_str())),
        };
        let mut cloud = empty_object();
        set_member(&mut cloud, "cloud_client", text_value("DT_TRANS_MQTT_CLIENT"));
        let mut mqtt = empty_object();
        set_member(&mut mqtt, "dns_addr", text_value(self.dns_addr.as_str().trim()));
        set_member(&mut mqtt, "ipaddr", text_value(self.ipaddr.as_str().trim()));
        set_member(&mut mqtt, "port", number_value(port as u64));
        set_member(&mut mqtt, "sec_tag", number_value(sec_tag as u64));
        set_member(&mut mqtt, "user_name", text_value(self.user_name.as_str().trim()));
        set_member(&mut mqtt, "password", text_value(self.password.as_str().trim()));
        set_member(&mut mqtt, "telemetry_topic", text_value(self.telemetry_topic.as_str().trim()));
        set_member(&mut mqtt, "status_topic", text_value(self.status_topic.as_str().trim()));
        set_member(&mut mqtt, "f_start_topic", text_value(self.f_start_topic.as_str().trim()));
        set_member(&mut mqtt, "f_end_topic", text_value(self.f_end_topic.as_str().trim()));
        set_member(&mut mqtt, "r_start_topic", text_value(self.r_start_topic.as_str().trim()));
        set_member(&mut mqtt, "r_end_topic", text_value(self.r_end_topic.as_str().trim()));
        let mut json = empty_object();
        set_member(&mut json, "nested", bool_value(true));
        set_member(&mut json, "save", bool_value(true));
        set_member(&mut json, "dt_cloud", cloud);
        set_member(&mut json, "dt_trans_mqtt", mqtt);
        Ok(json)
    }

    /// What is sent to the device so that it takes over and saves these settings. Read as a
    /// reply, it holds the settings, tidied.
    pub fn to_json_string(&self) -> (r: Result<String, String>)
        ensures
            r is Ok <==> port_is_valid(self@) && sec_tag_is_valid(self@),
            r matches Ok(s) ==> s@ == compact(settings_document(self@)),
            r matches Ok(s) ==> parsed_json(s@) == Some(settings_document(self@)),
            r is Ok ==> settings_in_reply(settings_document(self@)) == Some(tidied(self@)),
            r matches Err(e) ==> e@ == settings_complaint(self@),
    {
        let json = match self.to_json() {
            Ok(v) => v,
            Err(e) => return Err(e),
        };
        proof {
            lemma_document_is_two_level(self@);
            law_sent_settings_read_back(self@);
        }
        match render_json(&json) {
            Ok(s) => Ok(s),
            Err(e) => Err(e.to_string()),
        }
    }
}

// ---------------------------------------------------------------------------
// What is sent and what comes back
// ---------------------------------------------------------------------------

proof fn lemma_document_is_two_level(v: MqttView)
    requires
        port_is_valid(v),
        sec_tag_is_valid(v),
    ensures
        is_two_level(settings_document(v)),
{
    assert(is_simple(Json::Number(decimal(field_number(v.port)->0)))) by {
        let n = field_number(v.port)->0 as u64;
        assert(decimal(n as nat) == decimal(field_number(v.port)->0));
    }
    assert(is_simple(Json::Number(decimal(field_number(v.sec_tag)->0)))) by {
        let n = field_number(v.sec_tag)->0 as u64;
        assert(decimal(n as nat) == decimal(field_number(v.sec_tag)->0));
    }
    assert(is_flat(mqtt_section(v)));
    assert(is_flat(cloud_section()));
}

/// The names of the settings in the section of a document.
pub open spec fn setting_names() -> Seq<Seq<char>> {
    seq![
        "dns_addr"@,
        "ipaddr"@,
        "port"@,
        "sec_tag"@,
        "user_name"@,
        "password"@,
        "telemetry_topic"@,
        "status_topic"@,
        "f_start_topic"@,
        "f_end_topic"@,
        "r_start_topic"@,
        "r_end_topic"@,
    ]
}

/// The names of the settings are distinct.
proof fn lemma_names_are_distinct()
    ensures
        setting_names().no_duplicates(),
{
    reveal_strlit("dns_addr");
    reveal_strlit("ipaddr");
    reveal_strlit("port");
    reveal_strlit("sec_tag");
    reveal_strlit("user_name");
    reveal_strlit("password");
    reveal_strlit("telemetry_topic");
    reveal_strlit("status_topic");
    reveal_strlit("f_start_topic");
    reveal_strlit("f_end_topic");
    reveal_strlit("r_start_topic");
    reveal_strlit("r_end_topic");
    let names = setting_names();
    assert forall|i: int, j: int| 0 <= i < names.len() && 0 <= j < names.len() && i != j implies names[i]
        != names[j] by {
        let a = names[i];
        let b = names[j];
        assert(a.len() != b.len() || a[0] != b[0] || a[2] != b[2]);
    }
}

/// Settings that are sent and read back are the same settings, tidied.
pub proof fn law_sent_settings_read_back(v: MqttView)
    requires
        port_is_valid(v),
        sec_tag_is_valid(v),
    ensures
        settings_in_reply(settings_document(v)) == Some(tidied(v)),
{
    lemma_names_are_distinct();
    let names = setting_names();
    assert(names[0] == "dns_addr"@ && names[1] == "ipaddr"@ && names[2] == "port"@ && names[3]
        == "sec_tag"@ && names[4] == "user_name"@ && names[5] == "password"@ && names[6]
        == "telemetry_topic"@ && names[7] == "status_topic"@ && names[8] == "f_start_topic"@
        && names[9] == "f_end_topic"@ && names[10] == "r_start_topic"@ && names[11]
        == "r_end_topic"@);
    assert(forall|i: int, j: int|
        0 <= i < 12 && 0 <= j < 12 && i != j ==> #[trigger] names[i] != #[trigger] names[j]);
    assert(settings_in(mqtt_section(v)) =~= tidied(v));
}

/// A value without any of the settings holds the default settings.
pub proof fn law_missing_settings_are_default(tree: Json)
    requires
        forall|i: int| 0 <= i < 12 ==> json_member(tree, #[trigger] setting_names()[i]) is None,
    ensures
        settings_in(tree) == default_settings(),
{
    let names = setting_names();
    assert(json_member(tree, names[0]) is None && json_member(tree, names[1]) is None
        && json_member(tree, names[2]) is None && json_member(tree, names[3]) is None
        && json_member(tree, names[4]) is None && json_member(tree, names[5]) is None
        && json_member(tree, names[6]) is None && json_member(tree, names[7]) is None
        && json_member(tree, names[8]) is None && json_member(tree, names[9]) is None
        && json_member(tree, names[10]) is None && json_member(tree, names[11]) is None);
}

/// Digits stay as they are when white space is removed.
proof fn lemma_decimal_is_trimmed(n: nat)
    ensures
        trimmed(decimal(n)) == decimal(n),
        field_number(decimal(n)) == Some(n),
{
    lemma_decimal_value(n);
    law_decimal_round_trip(n, n);
    assert(is_digit(decimal(n)[0]));
    assert(is_digit(decimal(n)[decimal(n).len() - 1]));
}

/// Sending settings that were sent and read back sends the same again.
pub proof fn law_tidied_settings_are_stable(v: MqttView)
    requires
        port_is_valid(v),
        sec_tag_is_valid(v),
    ensures
        port_is_valid(tidied(v)),
        sec_tag_is_valid(tidied(v)),
        tidied(tidied(v)) == tidied(v),
        settings_document(tidied(v)) == settings_document(v),
{
    lemma_decimal_is_trimmed(field_number(v.port)->0);
    lemma_decimal_is_trimmed(field_number(v.sec_tag)->0);
    law_trim_is_idempotent(v.dns_addr);
    law_trim_is_idempotent(v.ipaddr);
    law_trim_is_idempotent(v.user_name);
    law_trim_is_idempotent(v.password);
    law_trim_is_idempotent(v.telemetry_topic);
    law_trim_is_idempotent(v.status_topic);
    law_trim_is_idempotent(v.f_start_topic);
    law_trim_is_idempotent(v.f_end_topic);
    law_trim_is_idempotent(v.r_start_topic);
    law_trim_is_idempotent(v.r_end_topic);
}

// ---------------------------------------------------------------------------
// The documents, member by member
// ---------------------------------------------------------------------------

/// Whatever the settings are, the document that is sent asks the device to take over nested
/// settings, to save them, and to use its MQTT client; and it holds nothing else but the
/// section of MQTT settings.
pub proof fn law_every_document_is_saved(v: MqttView)
    ensures
        json_member(settings_document(v), "nested"@) == Some(Json::Bool(true)),
        json_member(settings_document(v), "save"@) == Some(Json::Bool(true)),
        json_member(settings_document(v), "dt_trans_mqtt"@) is Some,
        ({
            let cloud = json_member(settings_document(v), "dt_cloud"@);
            &&& cloud is Some
            &&& json_member(cloud->0, "cloud_client"@) == Some(Json::Text("DT_TRANS_MQTT_CLIENT"@))
            &&& forall|k: Seq<char>|
                k != "cloud_client"@ ==> (#[trigger] json_member(cloud->0, k)) is None
        }),
        forall|k: Seq<char>|
            k != "nested"@ && k != "save"@ && k != "dt_cloud"@ && k != "dt_trans_mqtt"@ ==> (
            #[trigger] json_member(settings_document(v), k)) is None,
{
    reveal_strlit("nested");
    reveal_strlit("save");
    reveal_strlit("dt_cloud");
    reveal_strlit("dt_trans_mqtt");
    assert("nested"@.len() == 6 && "save"@.len() == 4 && "dt_cloud"@.len() == 8
        && "dt_trans_mqtt"@.len() == 13);
}

/// The documents of two settings differ in the section of MQTT settings only.
pub proof fn law_documents_differ_in_one_section(v: MqttView, w: MqttView, key: Seq<char>)
    requires
        key != "dt_trans_mqtt"@,
    ensures
        json_member(settings_document(v), key) == json_member(settings_document(w), key),
{
}

/// The section of MQTT settings holds each setting under its name, without the white space
/// around it, the two numbers as numbers, and nothing else.
pub proof fn law_what_is_sent_of_settings(v: MqttView)
    ensures
        json_member(settings_document(v), "dt_trans_mqtt"@) matches Some(section) && {
            &&& json_member(section, "dns_addr"@) == Some(Json::Text(trimmed(v.dns_addr)))
            &&& json_member(section, "ipaddr"@) == Some(Json::Text(trimmed(v.ipaddr)))
            &&& json_member(section, "user_name"@) == Some(Json::Text(trimmed(v.user_name)))
            &&& json_member(section, "password"@) == Some(Json::Text(trimmed(v.password)))
            &&& json_member(section, "telemetry_topic"@) == Some(Json::Text(trimmed(v.telemetry_topic)))
            &&& json_member(section, "status_topic"@) == Some(Json::Text(trimmed(v.status_topic)))
            &&& json_member(section, "f_start_topic"@) == Some(Json::Text(trimmed(v.f_start_topic)))
            &&& json_member(section, "f_end_topic"@) == Some(Json::Text(trimmed(v.f_end_topic)))
            &&& json_member(section, "r_start_topic"@) == Some(Json::Text(trimmed(v.r_start_topic)))
            &&& json_member(section, "r_end_topic"@) == Some(Json::Text(trimmed(v.r_end_topic)))
            &&& (unsigned_value(trimmed(v.port)) matches Some(n) ==> json_member(section, "port"@)
                == Some(Json::Number(decimal(n))))
            &&& (unsigned_value(trimmed(v.sec_tag)) matches Some(n) ==> json_member(
                section,
                "sec_tag"@,
            ) == Some(Json::Number(decimal(n))))
            &&& forall|k: Seq<char>|
                (#[trigger] json_member(section, k)) is Some ==> setting_names().contains(k)
        },
        setting_names() == seq![
            "dns_addr"@,
            "ipaddr"@,
            "port"@,
            "sec_tag"@,
            "user_name"@,
            "password"@,
            "telemetry_topic"@,
            "status_topic"@,
            "f_start_topic"@,
            "f_end_topic"@,
            "r_start_topic"@,
            "r_end_topic"@,
        ],
{
    lemma_names_are_distinct();
    let names = setting_names();
    assert(names[0] == "dns_addr"@);
    assert(names[1] == "ipaddr"@);
    assert(names[2] == "port"@);
    assert(names[3] == "sec_tag"@);
    assert(names[4] == "user_name"@);
    assert(names[5] == "password"@);
    assert(names[6] == "telemetry_topic"@);
    assert(names[7] == "status_topic"@);
    assert(names[8] == "f_start_topic"@);
    assert(names[9] == "f_end_topic"@);
    assert(names[10] == "r_start_topic"@);
    assert(names[11] == "r_end_topic"@);
    assert(forall|i: int, j: int|
        0 <= i < 12 && 0 <= j < 12 && i != j ==> #[trigger] names[i] != #[trigger] names[j]);
}

/// What is read of a section: each setting that stands under its name, and the default of
/// each that does not. A setting that is a text has to be a text; a number is taken by its
/// compact text.
pub proof fn law_what_is_read_of_settings(tree: Json)
    ensures
        (json_member(tree, "dns_addr"@) matches Some(Json::Text(s)) ==> settings_in(tree).dns_addr == s),
        !(json_member(tree, "dns_addr"@) matches Some(Json::Text(_))) ==> settings_in(tree).dns_addr
            == "dt-hub-2.azure-devices.net"@,
        (json_member(tree, "ipaddr"@) matches Some(Json::Text(s)) ==> settings_in(tree).ipaddr == s),
        !(json_member(tree, "ipaddr"@) matches Some(Json::Text(_))) ==> settings_in(tree).ipaddr
            == Seq::<char>::empty(),
        (json_member(tree, "user_name"@) matches Some(Json::Text(s)) ==> settings_in(tree).user_name == s),
        !(json_member(tree, "user_name"@) matches Some(Json::Text(_))) ==> settings_in(tree).user_name
            == Seq::<char>::empty(),
        (json_member(tree, "password"@) matches Some(Json::Text(s)) ==> settings_in(tree).password == s),
        !(json_member(tree, "password"@) matches Some(Json::Text(_))) ==> settings_in(tree).password
            == Seq::<char>::empty(),
        (json_member(tree, "telemetry_topic"@) matches Some(Json::Text(s)) ==> settings_in(tree).telemetry_topic == s),
        !(json_member(tree, "telemetry_topic"@) matches Some(Json::Text(_))) ==> settings_in(tree).telemetry_topic
            == "device/%s/telem"@,
        (json_member(tree, "status_topic"@) matches Some(Json::Text(s)) ==> settings_in(tree).status_topic == s),
        !(json_member(tree, "status_topic"@) matches Some(Json::Text(_))) ==> settings_in(tree).status_topic
            == "device/%s/status"@,
        (json_member(tree, "f_start_topic"@) matches Some(Json::Text(s)) ==> settings_in(tree).f_start_topic == s),
        !(json_member(tree, "f_start_topic"@) matches Some(Json::Text(_))) ==> settings_in(tree).f_start_topic
            == "device/%s/f_start"@,
        (json_member(tree, "f_end_topic"@) matches Some(Json::Text(s)) ==> settings_in(tree).f_end_topic == s),
        !(json_member(tree, "f_end_topic"@) matches Some(Json::Text(_))) ==> settings_in(tree).f_end_topic
            == "device/%s/f_end"@,
        (json_member(tree, "r_start_topic"@) matches Some(Json::Text(s)) ==> settings_in(tree).r_start_topic == s),
        !(json_member(tree, "r_start_topic"@) matches Some(Json::Text(_))) ==> settings_in(tree).r_start_topic
            == "device/%s/r_start"@,
        (json_member(tree, "r_end_topic"@) matches Some(Json::Text(s)) ==> settings_in(tree).r_end_topic == s),
        !(json_member(tree, "r_end_topic"@) matches Some(Json::Text(_))) ==> settings_in(tree).r_end_topic
            == "device/%s/r_end"@,
        (json_member(tree, "port"@) matches Some(m) ==> settings_in(tree).port == compact(m)),
        json_member(tree, "port"@) is None ==> settings_in(tree).port == "8883"@,
        (json_member(tree, "sec_tag"@) matches Some(m) ==> settings_in(tree).sec_tag == compact(m)),
        json_member(tree, "sec_tag"@) is None ==> settings_in(tree).sec_tag == "1"@,
{
}

/// The settings of a reply are those in its section of MQTT settings.
pub proof fn law_settings_of_a_reply(tree: Json)
    ensures
        settings_in_reply(tree) is None <==> json_member(tree, "dt_trans_mqtt"@) is None,
        (json_member(tree, "dt_trans_mqtt"@) matches Some(section) ==> settings_in_reply(tree)
            == Some(settings_in(section))),
{
}

/// The settings that a window opens with.
pub proof fn law_default_settings()
    ensures
        default_settings().dns_addr == "dt-hub-2.azure-devices.net"@,
        default_settings().ipaddr == Seq::<char>::empty(),
        default_settings().port == "8883"@,
        default_settings().sec_tag == "1"@,
        default_settings().user_name == Seq::<char>::empty(),
        default_settings().password == Seq::<char>::empty(),
        default_settings().telemetry_topic == "device/%s/telem"@,
        default_settings().status_topic == "device/%s/status"@,
        default_settings().f_start_topic == "device/%s/f_start"@,
        default_settings().f_end_topic == "device/%s/f_end"@,
        default_settings().r_start_topic == "device/%s/r_start"@,
        default_settings().r_end_topic == "device/%s/r_end"@,
{
}

/// A port is a number up to 65535 and a security tag one up to 4294967295, each with white
/// space around it or without. A port that is none is complained about before a security tag
/// that is none, and the field is shown as it was typed.
pub proof fn law_which_settings_can_be_sent(v: MqttView)
    ensures
        port_is_valid(v) <==> (unsigned_value(trimmed(v.port)) matches Some(n) && n <= 65535),
        sec_tag_is_valid(v) <==> (unsigned_value(trimmed(v.sec_tag)) matches Some(n) && n
            <= 4294967295),
        !port_is_valid(v) ==> settings_complaint(v) == "Invalid port number: '"@ + v.port + "'"@,
        port_is_valid(v) && !sec_tag_is_valid(v) ==> settings_complaint(v)
            == "Invalid sec_tag: '"@ + v.sec_tag + "'"@,
{
}

/// Tidied settings have no white space around them, and their numbers are written plainly.
pub proof fn law_what_tidying_does(v: MqttView)
    ensures
        tidied(v).dns_addr == trimmed(v.dns_addr),
        tidied(v).ipaddr == trimmed(v.ipaddr),
        tidied(v).user_name == trimmed(v.user_name),
        tidied(v).password == trimmed(v.password),
        tidied(v).telemetry_topic == trimmed(v.telemetry_topic),
        tidied(v).status_topic == trimmed(v.status_topic),
        tidied(v).f_start_topic == trimmed(v.f_start_topic),
        tidied(v).f_end_topic == trimmed(v.f_end_topic),
        tidied(v).r_start_topic == trimmed(v.r_start_topic),
        tidied(v).r_end_topic == trimmed(v.r_end_topic),
        (unsigned_value(trimmed(v.port)) matches Some(n) ==> tidied(v).port == decimal(n)),
        (unsigned_value(trimmed(v.sec_tag)) matches Some(n) ==> tidied(v).sec_tag == decimal(n)),
{
}

} // verus!
