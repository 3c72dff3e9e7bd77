//! The state behind the window: connection, certificates tab and MQTT settings tab, what
//! the buttons do to it and what the status areas show of it.

use vstd::prelude::*;
use vstd::string::*;

use crate::certs::{
    all_acceptable, law_remote_paths_name_the_tag, local_paths, remote_path, remote_paths,
    validate_cert_files, validation_complaint, CertFileSizes, UploadParams,
};
use crate::device::DeviceType;
use crate::json::{compact, json_member, parsed_json};
use crate::mqtt::{
    default_settings, law_settings_of_a_reply, port_is_valid, sec_tag_is_valid,
    settings_complaint, settings_document, settings_in, settings_in_reply, MqttSettings, MqttView,
};
use crate::text::{decimal, push_decimal, split_words, words};
use crate::upload::UploadProgress;

verus! {

/// Where the upload of the certificates stands.
pub enum UploadState {
    Idle,
    Connecting,
    Running {
        file_index: usize,
        file_label: String,
        remote_path: String,
        transferred: u64,
        total: u64,
    },
    Done,
    Error(String),
}

/// Where the exchange of settings stands.
pub enum SettingsState {
    Idle,
    Busy,
    Done,
    Error(String),
}

#[derive(Debug, Clone, Copy, PartialEq, Eq, Structural)]
pub enum Tab {
    Certificates,
    MqttSettings,
}

/// Everything that the window shows and changes.
pub struct App {
    pub port: String,
    pub device_type: DeviceType,
    pub available_ports: Vec<String>,
    pub active_tab: Tab,
    pub ca_path: String,
    pub client_cert_path: String,
    pub client_key_path: String,
    pub sec_tag: u8,
    pub upload_state: UploadState,
    pub mqtt: MqttSettings,
    pub settings_state: SettingsState,
    /// The outcome of a read of the settings that the fields do not show yet.
    pub read_result: Option<Result<String, String>>,
}

pub enum UploadStateView {
    Idle,
    Connecting,
    Running {
        file_index: usize,
        file_label: Seq<char>,
        remote_path: Seq<char>,
        transferred: u64,
        total: u64,
    },
    Done,
    Error(Seq<char>),
}

pub enum SettingsStateView {
    Idle,
    Busy,
    Done,
    Error(Seq<char>),
}

impl View for UploadState {
    type V = UploadStateView;

    open spec fn view(&self) -> UploadStateView {
        match *self {
            UploadState::Idle => UploadStateView::Idle,
            UploadState::Connecting => UploadStateView::Connecting,
            UploadState::Running { file_index, file_label, remote_path, transferred, total } =>
                UploadStateView::Running {
                file_index,
                file_label: file_label@,
                remote_path: remote_path@,
                transferred,
                total,
            },
            UploadState::Done => UploadStateView::Done,
            UploadState::Error(e) => UploadStateView::Error(e@),
        }
    }
}

impl View for SettingsState {
    type V = SettingsStateView;

    open spec fn view(&self) -> SettingsStateView {
        match *self {
            SettingsState::Idle => SettingsStateView::Idle,
            SettingsState::Busy => SettingsStateView::Busy,
            SettingsState::Done => SettingsStateView::Done,
            SettingsState::Error(e) => SettingsStateView::Error(e@),
        }
    }
}

#[verifier::ext_equal]
pub struct AppView {
    pub port: Seq<char>,
    pub device_type: DeviceType,
    pub available_ports: Seq<Seq<char>>,
    pub active_tab: Tab,
    pub ca_path: Seq<char>,
    pub client_cert_path: Seq<char>,
    pub client_key_path: Seq<char>,
    pub sec_tag: u8,
    pub upload_state: UploadStateView,
    pub mqtt: MqttView,
    pub settings_state: SettingsStateView,
    pub read_result: Option<Result<String, String>>,
}

/// The texts in `v`.
pub open spec fn texts(v: Seq<String>) -> Seq<Seq<char>> {
    Seq::new(v.len(), |i: int| v[i]@)
}

impl View for App {
    type V = AppView;

    open spec fn view(&self) -> AppView {
        AppView {
            port: self.port@,
            device_type: self.device_type,
            available_ports: texts(self.available_ports@),
            active_tab: self.active_tab,
            ca_path: self.ca_path@,
            client_cert_path: self.client_cert_path@,
            client_key_path: self.client_key_path@,
            sec_tag: self.sec_tag,
            upload_state: self.upload_state@,
            mqtt: self.mqtt@,
            settings_state: self.settings_state@,
            read_result: self.read_result,
        }
    }
}

// ---------------------------------------------------------------------------
// Ports
// ---------------------------------------------------------------------------

/// Nanoseconds after which the list of ports is read again: 500 ms.
pub const PORT_REFRESH_NANOS: u128 = 500_000_000;

/// Whether the list of ports is to be read again.
pub fn port_refresh_is_due(elapsed_nanos: u128) -> (r: bool)
    ensures
        r == (elapsed_nanos > 500_000_000),
{
    elapsed_nanos > PORT_REFRESH_NANOS
}

/// The names of the serial ports that a search found. A search that failed found none.
pub fn list_serial_ports(found: Result<Vec<String>, String>) -> (r: Vec<String>)
    ensures
        match found {
            Ok(names) => r == names,
            Err(_) => r@ == Seq::<String>::empty(),
        },
{
    match found {
        Ok(names) => names,
        Err(_) => Vec::new(),
    }
}

/// The first port, or no name where there is no port.
pub open spec fn first_port(ports: Seq<Seq<char>>) -> Seq<char> {
    if ports.len() > 0 {
        ports[0]
    } else {
        Seq::empty()
    }
}

/// The port to show: the one that was shown, or the first where that one is gone.
pub open spec fn kept_port(port: Seq<char>, ports: Seq<Seq<char>>) -> Seq<char> {
    if ports.contains(port) {
        port
    } else {
        first_port(ports)
    }
}

fn first_or_default(ports: &Vec<String>) -> (r: String)
    ensures
        r@ == first_port(texts(ports@)),
{
    if ports.len() > 0 {
        ports[0].clone()
    } else {
        String::new()
    }
}

/// The port that is shown is one of the ports there are, if there are any.
pub proof fn law_shown_port_exists(port: Seq<char>, ports: Seq<Seq<char>>)
    ensures
        ports.len() > 0 ==> ports.contains(kept_port(port, ports)),
        ports.len() == 0 ==> kept_port(port, ports) == Seq::<char>::empty(),
{
    if ports.len() > 0 {
        assert(ports.contains(ports[0]));
    }
}

// ---------------------------------------------------------------------------
// Certificates
// ---------------------------------------------------------------------------

pub open spec fn uploading(s: UploadStateView) -> bool {
    s is Connecting || s is Running
}

/// The state that a progress update leads to.
pub open spec fn running(p: UploadProgress) -> UploadStateView {
    UploadStateView::Running {
        file_index: p.file_index,
        file_label: p.file_label@,
        remote_path: p.remote_path@,
        transferred: p.transferred,
        total: p.total,
    }
}

/// The state that the outcome of an upload leads to.
pub open spec fn upload_ended(result: Result<(), String>) -> UploadStateView {
    match result {
        Ok(()) => UploadStateView::Done,
        Err(e) => UploadStateView::Error(e@),
    }
}

/// The state after another security tag was chosen: an old outcome is no longer shown.
pub open spec fn outcome_cleared(s: UploadStateView) -> UploadStateView {
    if s is Done || s is Error {
        UploadStateView::Idle
    } else {
        s
    }
}

/// `params` asks for what the window shows.
pub open spec fn params_shown(v: AppView, params: UploadParams) -> bool {
    &&& params.port@ == v.port
    &&& params.device_type == v.device_type
    &&& params.sec_tag == v.sec_tag
    &&& params.ca_path@ == v.ca_path
    &&& params.client_cert_path@ == v.client_cert_path
    &&& params.client_key_path@ == v.client_key_path
}

/// The files that the window shows.
pub open spec fn chosen_paths(v: AppView) -> Seq<Seq<char>> {
    seq![v.ca_path, v.client_cert_path, v.client_key_path]
}

/// An upload can be started: everything is filled in, and nothing is under way.
pub open spec fn can_upload(v: AppView) -> bool {
    &&& v.port.len() > 0
    &&& v.ca_path.len() > 0
    &&& v.client_cert_path.len() > 0
    &&& v.client_key_path.len() > 0
    &&& !is_busy(v)
}

/// Something is under way.
pub open spec fn is_busy(v: AppView) -> bool {
    uploading(v.upload_state) || v.settings_state is Busy
}

/// While something is under way no upload and no exchange of settings can be started.
pub proof fn law_nothing_starts_while_busy(v: AppView)
    requires
        is_busy(v),
    ensures
        !can_upload(v),
        !can_exchange(v),
{
}

/// The end of an upload makes way for the next, whatever its outcome.
pub proof fn law_ended_upload_makes_way(v: AppView, result: Result<(), String>)
    ensures
        !uploading(upload_ended(result)),
        !(v.settings_state is Busy) ==> !is_busy(
            AppView { upload_state: upload_ended(result), ..v },
        ),
{
}

/// Choosing a security tag neither starts nor stops an upload.
pub proof fn law_choice_of_tag_keeps_upload(s: UploadStateView)
    ensures
        uploading(outcome_cleared(s)) == uploading(s),
        uploading(s) ==> outcome_cleared(s) == s,
{
}

/// What the status area of the certificates tab shows.
pub enum UploadStatus {
    Nothing,
    /// A spinner with a label.
    Waiting(String),
    /// A progress bar between two lines of text.
    Progress { heading: String, file_index: usize, transferred: u64, total: u64, detail: String },
    /// A full progress bar, and the remote paths of the files.
    Success { heading: String, stored: Vec<String> },
    Failure(String),
}

/// `shown` says what there is to say of the upload.
pub open spec fn is_upload_status(shown: UploadStatus, v: AppView) -> bool {
    match v.upload_state {
        UploadStateView::Idle => shown is Nothing,
        UploadStateView::Connecting => {
            &&& shown matches UploadStatus::Waiting(label)
            &&& label@ == "Connecting to device..."@
        },
        UploadStateView::Running {
            file_index: index,
            file_label: label,
            remote_path: path,
            transferred: done,
            total: all,
        } => if index == usize::MAX {
            &&& shown matches UploadStatus::Waiting(label)
            &&& label@ == "Initializing..."@
        } else {
            &&& shown matches UploadStatus::Progress {
                heading,
                file_index,
                transferred,
                total,
                detail,
            }
            &&& heading@ == "["@ + decimal((index + 1) as nat) + "/3] "@ + label + " → "@ + path
            &&& file_index == index
            &&& transferred == done
            &&& total == all
            &&& detail@ == decimal(done as nat) + " / "@ + decimal(all as nat) + " bytes"@
        },
        UploadStateView::Done => {
            &&& shown matches UploadStatus::Success { heading, stored }
            &&& heading@ == "✔  All certificates uploaded successfully (sec_tag: "@ + decimal(
                v.sec_tag as nat,
            ) + ")"@
            &&& stored@.len() == 3
            &&& forall|i: int|
                0 <= i < 3 ==> (#[trigger] stored@[i])@ == "  "@ + remote_path(v.sec_tag, i)
        },
        UploadStateView::Error(e) => {
            &&& shown matches UploadStatus::Failure(label)
            &&& label@ == "✖  Error: "@ + e
        },
    }
}

fn with_text(start: &str, rest: &str) -> (r: String)
    ensures
        r@ == start@ + rest@,
{
    let mut s = start.to_string();
    s.append(rest);
    s
}

fn with_number(start: &str, n: u64, rest: &str) -> (r: String)
    ensures
        r@ == start@ + decimal(n as nat) + rest@,
{
    let mut s = start.to_string();
    push_decimal(&mut s, n);
    s.append(rest);
    s
}

// ---------------------------------------------------------------------------
// MQTT settings
// ---------------------------------------------------------------------------

/// An exchange of settings can be started: a port is chosen, and nothing is under way.
pub open spec fn can_exchange(v: AppView) -> bool {
    !is_busy(v) && v.port.len() > 0
}

/// The state that the outcome of a write of the settings leads to.
pub open spec fn write_ended(result: Result<(), String>) -> SettingsStateView {
    match result {
        Ok(()) => SettingsStateView::Done,
        Err(e) => SettingsStateView::Error(e@),
    }
}

/// The state that the outcome of a read of the settings leads to.
pub open spec fn read_ended(result: Result<String, String>) -> SettingsStateView {
    match result {
        Ok(_) => SettingsStateView::Done,
        Err(e) => SettingsStateView::Error(e@),
    }
}

/// The fields after the outcome of a read was applied to them: what the reply holds,
/// where it is JSON with a section of MQTT settings; as they were, where it is not.
pub open spec fn fields_after_read(fields: MqttView, result: Option<Result<String, String>>) -> MqttView {
    match result {
        Some(Ok(json)) => match parsed_json(json@) {
            Some(tree) => match settings_in_reply(tree) {
                Some(m) => m,
                None => fields,
            },
            None => fields,
        },
        _ => fields,
    }
}

/// What the status area of the MQTT settings tab shows.
pub enum SettingsStatus {
    Nothing,
    /// A spinner with a label.
    Waiting(String),
    Success(String),
    Failure(String),
}

/// `shown` says what there is to say of the exchange of settings.
pub open spec fn is_settings_status(shown: SettingsStatus, v: AppView) -> bool {
    match v.settings_state {
        SettingsStateView::Idle => shown is Nothing,
        SettingsStateView::Busy => {
            &&& shown matches SettingsStatus::Waiting(label)
            &&& label@ == "Communicating with device..."@
        },
        SettingsStateView::Done => {
            &&& shown matches SettingsStatus::Success(label)
            &&& label@ == "✔  Done."@
        },
        SettingsStateView::Error(e) => {
            &&& shown matches SettingsStatus::Failure(label)
            &&& label@ == "✖  Error: "@ + e
        },
    }
}

impl App {
    /// The window as it opens, with the ports that there are.
    pub fn new(available_ports: Vec<String>) -> (r: Self)
        ensures
            r@ == (AppView {
                port: first_port(texts(available_ports@)),
                device_type: DeviceType::DronetagTransmitter,
                available_ports: texts(available_ports@),
                active_tab: Tab::Certificates,
                ca_path: Seq::empty(),
                client_cert_path: Seq::empty(),
                client_key_path: Seq::empty(),
                sec_tag: 1,
                upload_state: UploadStateView::Idle,
                mqtt: default_settings(),
                settings_state: SettingsStateView::Idle,
                read_result: None,
            }),
    {
        let port = first_or_default(&available_ports);
        App {
            port,
            device_type: DeviceType::DronetagTransmitter,
            available_ports,
            active_tab: Tab::Certificates,
            ca_path: String::new(),
            client_cert_path: String::new(),
            client_key_path: String::new(),
            sec_tag: 1,
            upload_state: UploadState::Idle,
            mqtt: MqttSettings::default(),
            settings_state: SettingsState::Idle,
            read_result: None,
        }
    }

    /// Takes over a new list of ports. A port that is gone makes way for the first one.
    pub fn refresh_ports(&mut self, available_ports: Vec<String>)
        ensures
            final(self)@ == (AppView {
                port: kept_port(old(self)@.port, texts(available_ports@)),
                available_ports: texts(available_ports@),
                ..old(self)@
            }),
    {
        let mut found: bool = false;
        let ghost ports = texts(available_ports@);
        for i in 0..available_ports.len()
            invariant
                ports == texts(available_ports@),
                found <==> exists|j: int| 0 <= j < i && #[trigger] ports[j] == self.port@,
        {
            if available_ports[i] == self.port {
                found = true;
                assert(ports[i as int] == self.port@);
            }
        }
        assert(found <==> ports.contains(self.port@));
        if !found {
            self.port = first_or_default(&available_ports);
        }
        self.available_ports = available_ports;
    }

    pub fn is_uploading(&self) -> (r: bool)
        ensures
            r == uploading(self@.upload_state),
    {
        match self.upload_state {
            UploadState::Connecting => true,
            UploadState::Running { .. } => true,
            _ => false,
        }
    }

    pub fn is_settings_busy(&self) -> (r: bool)
        ensures
            r == (self@.settings_state is Busy),
    {
        match self.settings_state {
            SettingsState::Busy => true,
            _ => false,
        }
    }

    /// Whether something is under way.
    pub fn is_busy(&self) -> (r: bool)
        ensures
            r == is_busy(self@),
    {
        self.is_uploading() || self.is_settings_busy()
    }

    /// What the window asks for.
    pub fn upload_params(&self) -> (r: UploadParams)
        ensures
            params_shown(self@, r),
    {
        UploadParams {
            port: self.port.clone(),
            device_type: self.device_type,
            sec_tag: self.sec_tag,
            ca_path: self.ca_path.clone(),
            client_cert_path: self.client_cert_path.clone(),
            client_key_path: self.client_key_path.clone(),
        }
    }

    /// Starts an upload: the caller is to run it with the parameters returned.
    pub fn start_upload(&mut self) -> (r: UploadParams)
        ensures
            final(self)@ == (AppView { upload_state: UploadStateView::Connecting, ..old(self)@ }),
            params_shown(old(self)@, r),
    {
        self.upload_state = UploadState::Connecting;
        self.upload_params()
    }

    /// Takes over a progress update of the upload. It always goes on.
    pub fn upload_progress(&mut self, progress: UploadProgress) -> (r: bool)
        ensures
            r,
            final(self)@ == (AppView { upload_state: running(progress), ..old(self)@ }),
    {
        self.upload_state =
        UploadState::Running {
            file_index: progress.file_index,
            file_label: progress.file_label,
            remote_path: progress.remote_path,
            transferred: progress.transferred,
            total: progress.total,
        };
        true
    }

    /// Takes over the outcome of the upload.
    pub fn upload_finished(&mut self, result: Result<(), String>)
        ensures
            final(self)@ == (AppView { upload_state: upload_ended(result), ..old(self)@ }),
    {
        self.upload_state =
        match result {
            Ok(()) => UploadState::Done,
            Err(e) => UploadState::Error(e),
        };
    }

    /// The user chose a security tag.
    pub fn choose_sec_tag(&mut self, tag: u8)
        ensures
            final(self)@ == (AppView {
                sec_tag: tag,
                upload_state: outcome_cleared(old(self)@.upload_state),
                ..old(self)@
            }),
    {
        self.sec_tag = tag;
        match self.upload_state {
            UploadState::Done => {
                self.upload_state = UploadState::Idle;
            },
            UploadState::Error(_) => {
                self.upload_state = UploadState::Idle;
            },
            _ => {},
        }
    }

    /// Whether the button that starts an upload can be pressed.
    pub fn upload_ready(&self) -> (r: bool)
        ensures
            r == can_upload(self@),
    {
        !self.port.as_str().is_empty() && !self.ca_path.as_str().is_empty()
            && !self.client_cert_path.as_str().is_empty()
            && !self.client_key_path.as_str().is_empty() && !self.is_busy()
    }

    /// The user pressed the button that starts an upload. The upload starts only where the
    /// three files are acceptable.
    pub fn press_upload(&mut self, sizes: &CertFileSizes) -> (r: Option<UploadParams>)
        ensures
            r is Some <==> all_acceptable(*sizes),
            r matches Some(params) ==> {
                &&& params_shown(old(self)@, params)
                &&& final(self)@ == (AppView {
                    upload_state: UploadStateView::Connecting,
                    ..old(self)@
                })
            },
            r is None ==> final(self)@ == (AppView {
                upload_state: UploadStateView::Error(
                    validation_complaint(chosen_paths(old(self)@), *sizes),
                ),
                ..old(self)@
            }),
    {
        let params = self.upload_params();
        match validate_cert_files(&params, sizes) {
            Err(e) => {
                assert(local_paths(params) =~= chosen_paths(old(self)@));
                self.upload_state = UploadState::Error(e);
                None
            },
            Ok(()) => Some(self.start_upload()),
        }
    }

    /// What the status area of the certificates tab shows.
    pub fn upload_status(&self) -> (r: UploadStatus)
        ensures
            is_upload_status(r, self@),
    {
        match &self.upload_state {
            UploadState::Idle => UploadStatus::Nothing,
            UploadState::Connecting => UploadStatus::Waiting("Connecting to device...".to_string()),
            UploadState::Running { file_index, file_label, remote_path, transferred, total } => {
                if *file_index == usize::MAX {
                    UploadStatus::Waiting("Initializing...".to_string())
                } else {
                    let mut heading = with_number("[", (*file_index + 1) as u64, "/3] ");
                    heading.append(file_label.as_str());
                    heading.append(" → ");
                    heading.append(remote_path.as_str());
                    let mut detail = String::new();
                    push_decimal(&mut detail, *transferred);
                    assert(detail@ =~= decimal(*transferred as nat));
                    detail.append(" / ");
                    push_decimal(&mut detail, *total);
                    detail.append(" bytes");
                    UploadStatus::Progress {
                        heading,
                        file_index: *file_index,
                        transferred: *transferred,
                        total: *total,
                        detail,
                    }
                }
            },
            UploadState::Done => {
                let paths = remote_paths(self.sec_tag);
                let mut stored: Vec<String> = Vec::new();
                for i in 0..3
                    invariant
                        stored@.len() == i,
                        forall|j: int|
                            0 <= j < 3 ==> (#[trigger] paths@[j])@ == remote_path(self.sec_tag, j),
                        forall|j: int|
                            0 <= j < i ==> (#[trigger] stored@[j])@ == "  "@ + remote_path(
                                self.sec_tag,
                                j,
                            ),
                {
                    assert(paths@[i as int]@ == remote_path(self.sec_tag, i as int));
                    stored.push(with_text("  ", paths[i].as_str()));
                }
                UploadStatus::Success {
                    heading: with_number(
                        "✔  All certificates uploaded successfully (sec_tag: ",
                        self.sec_tag as u64,
                        ")",
                    ),
                    stored,
                }
            },
            UploadState::Error(e) => UploadStatus::Failure(with_text("✖  Error: ", e.as_str())),
        }
    }

    /// Whether the buttons that read and write the settings can be pressed.
    pub fn settings_ready(&self) -> (r: bool)
        ensures
            r == can_exchange(self@),
    {
        !self.is_busy() && !self.port.as_str().is_empty()
    }

    /// The user pressed the button that reads the settings. The outcome of an earlier read
    /// that the fields do not show yet is dropped.
    pub fn start_read_settings(&mut self)
        ensures
            final(self)@ == (AppView {
                settings_state: SettingsStateView::Busy,
                read_result: None,
                ..old(self)@
            }),
    {
        self.settings_state = SettingsState::Busy;
        self.read_result = None;
    }

    /// Takes over the outcome of a read of the settings.
    pub fn read_finished(&mut self, result: Result<String, String>)
        ensures
            final(self)@ == (AppView {
                settings_state: read_ended(result),
                read_result: Some(result),
                ..old(self)@
            }),
    {
        self.settings_state =
        match &result {
            Ok(_) => SettingsState::Done,
            Err(e) => SettingsState::Error(e.clone()),
        };
        self.read_result = Some(result);
    }

    /// Applies the outcome of a read to the fields, where there is one that they do not
    /// show yet.
    pub fn apply_read_result(&mut self)
        ensures
            final(self)@ == (AppView {
                mqtt: fields_after_read(old(self)@.mqtt, old(self)@.read_result),
                read_result: None,
                ..old(self)@
            }),
    {
        match self.read_result.take() {
            Some(Ok(json)) => match MqttSettings::from_reply_text(json.as_str()) {
                Some(m) => {
                    self.mqtt = m;
                },
                None => {},
            },
            _ => {},
        }
    }

    /// Starts a write of the settings.
    pub fn start_write_settings(&mut self)
        ensures
            final(self)@ == (AppView { settings_state: SettingsStateView::Busy, ..old(self)@ }),
    {
        self.settings_state = SettingsState::Busy;
    }

    /// The user pressed the button that writes the settings: the caller is to send the text
    /// returned. Settings that cannot be sent are complained about.
    pub fn press_write(&mut self) -> (r: Option<String>)
        ensures
            r is Some <==> port_is_valid(old(self)@.mqtt) && sec_tag_is_valid(old(self)@.mqtt),
            r matches Some(json) ==> {
                &&& json@ == compact(settings_document(old(self)@.mqtt))
                &&& parsed_json(json@) == Some(settings_document(old(self)@.mqtt))
                &&& final(self)@ == (AppView {
                    settings_state: SettingsStateView::Busy,
                    ..old(self)@
                })
            },
            r is None ==> final(self)@ == (AppView {
                settings_state: SettingsStateView::Error(settings_complaint(old(self)@.mqtt)),
                ..old(self)@
            }),
    {
        match self.mqtt.to_json_string() {
            Err(e) => {
                self.settings_state = SettingsState::Error(e);
                None
            },
            Ok(json) => {
                self.start_write_settings();
                Some(json)
            },
        }
    }

    /// Takes over the outcome of a write of the settings.
    pub fn write_finished(&mut self, result: Result<(), String>)
        ensures
            final(self)@ == (AppView { settings_state: write_ended(result), ..old(self)@ }),
    {
        self.settings_state =
        match result {
            Ok(()) => SettingsState::Done,
            Err(e) => SettingsState::Error(e),
        };
    }

    /// What the status area of the MQTT settings tab shows.
    pub fn settings_status(&self) -> (r: SettingsStatus)
        ensures
            is_settings_status(r, self@),
    {
        match &self.settings_state {
            SettingsState::Idle => SettingsStatus::Nothing,
            SettingsState::Busy => SettingsStatus::Waiting(
                "Communicating with device...".to_string(),
            ),
            SettingsState::Done => SettingsStatus::Success("✔  Done.".to_string()),
            SettingsState::Error(e) => SettingsStatus::Failure(
                with_text("✖  Error: ", e.as_str()),
            ),
        }
    }
}

// ---------------------------------------------------------------------------
// File filters
// ---------------------------------------------------------------------------

/// A pattern without the `*.` before its extension, however often that stands there.
pub open spec fn extension(pattern: Seq<char>) -> Seq<char>
    decreases pattern.len(),
{
    if pattern.len() >= 2 && pattern[0] == '*' && pattern[1] == '.' {
        extension(pattern.skip(2))
    } else {
        pattern
    }
}

fn strip_pattern(pattern: &str) -> (r: String)
    ensures
        r@ == extension(pattern@),
{
    let n: usize = pattern.unicode_len();
    let mut i: usize = 0;
    assert(pattern@.skip(0) =~= pattern@);
    while n - i >= 2 && pattern.get_char(i) == '*' && pattern.get_char(i + 1) == '.'
        invariant
            i <= n,
            n == pattern@.len(),
            extension(pattern@) == extension(pattern@.skip(i as int)),
        decreases n - i,
    {
        assert(pattern@.skip(i as int).skip(2) =~= pattern@.skip(i + 2));
        i = i + 2;
    }
    assert(pattern@.subrange(i as int, n as int) =~= pattern@.skip(i as int));
    pattern.substring_char(i, n).to_string()
}

/// The extensions in a filter such as `*.pem *.crt`.
pub fn filter_extensions(filter: &str) -> (r: Vec<String>)
    ensures
        r@.len() == words(filter@).len(),
        forall|i: int| 0 <= i < r@.len() ==> (#[trigger] r@[i])@ == extension(words(filter@)[i]),
{
    let patterns = split_words(filter);
    let mut r: Vec<String> = Vec::new();
    for i in 0..patterns.len()
        invariant
            r@.len() == i,
            patterns@.len() == words(filter@).len(),
            forall|j: int| 0 <= j < patterns@.len() ==> (#[trigger] patterns@[j])@ == words(filter@)[j],
            forall|j: int| 0 <= j < i ==> (#[trigger] r@[j])@ == extension(words(filter@)[j]),
    {
        assert(patterns@[i as int]@ == words(filter@)[i as int]);
        r.push(strip_pattern(patterns[i].as_str()));
    }
    r
}

/// What is left of a pattern is what stands behind the `*.` before it: a pattern that does
/// not begin so stays as it is.
pub proof fn law_what_an_extension_is(pattern: Seq<char>)
    ensures
        extension("*."@ + pattern) == extension(pattern),
        !"*."@.is_prefix_of(pattern) ==> extension(pattern) == pattern,
{
    reveal_strlit("*.");
    assert(("*."@ + pattern).skip(2) =~= pattern);
    if pattern.len() >= 2 && pattern[0] == '*' && pattern[1] == '.' {
        assert("*."@ =~= pattern.take(2));
        assert("*."@.is_prefix_of(pattern));
    }
}

// ---------------------------------------------------------------------------
// What the window does
// ---------------------------------------------------------------------------

/// The view of the window shows every field as it is.
pub proof fn law_view_of_the_window(app: App)
    ensures
        app@.port == app.port@,
        app@.device_type == app.device_type,
        app@.available_ports.len() == app.available_ports@.len(),
        forall|i: int|
            0 <= i < app.available_ports@.len() ==> (#[trigger] app@.available_ports[i])
                == app.available_ports@[i]@,
        app@.active_tab == app.active_tab,
        app@.ca_path == app.ca_path@,
        app@.client_cert_path == app.client_cert_path@,
        app@.client_key_path == app.client_key_path@,
        app@.sec_tag == app.sec_tag,
        app@.read_result == app.read_result,
        app@.mqtt.dns_addr == app.mqtt.dns_addr@,
        app@.mqtt.ipaddr == app.mqtt.ipaddr@,
        app@.mqtt.port == app.mqtt.port@,
        app@.mqtt.sec_tag == app.mqtt.sec_tag@,
        app@.mqtt.user_name == app.mqtt.user_name@,
        app@.mqtt.password == app.mqtt.password@,
        app@.mqtt.telemetry_topic == app.mqtt.telemetry_topic@,
        app@.mqtt.status_topic == app.mqtt.status_topic@,
        app@.mqtt.f_start_topic == app.mqtt.f_start_topic@,
        app@.mqtt.f_end_topic == app.mqtt.f_end_topic@,
        app@.mqtt.r_start_topic == app.mqtt.r_start_topic@,
        app@.mqtt.r_end_topic == app.mqtt.r_end_topic@,
        app.upload_state is Idle <==> app@.upload_state is Idle,
        app.upload_state is Connecting <==> app@.upload_state is Connecting,
        app.upload_state is Done <==> app@.upload_state is Done,
        app.upload_state is Running <==> app@.upload_state is Running,
        app.upload_state is Error <==> app@.upload_state is Error,
        (app.upload_state matches UploadState::Error(e) ==> app@.upload_state
            == UploadStateView::Error(e@)),
        (app.upload_state matches UploadState::Running {
            file_index,
            file_label,
            remote_path: path,
            transferred,
            total,
        } ==> app@.upload_state == (UploadStateView::Running {
            file_index,
            file_label: file_label@,
            remote_path: path@,
            transferred,
            total,
        })),
        app.settings_state is Idle <==> app@.settings_state is Idle,
        app.settings_state is Busy <==> app@.settings_state is Busy,
        app.settings_state is Done <==> app@.settings_state is Done,
        app.settings_state is Error <==> app@.settings_state is Error,
        (app.settings_state matches SettingsState::Error(e) ==> app@.settings_state
            == SettingsStateView::Error(e@)),
{
}

/// A port that is still there stays chosen, whichever it is; otherwise the first is chosen.
pub proof fn law_which_port_is_chosen(port: Seq<char>, ports: Seq<Seq<char>>, i: int)
    ensures
        0 <= i < ports.len() && ports[i] == port ==> kept_port(port, ports) == port,
        !ports.contains(port) && ports.len() > 0 ==> kept_port(port, ports) == ports[0],
        ports.len() == 0 ==> kept_port(port, ports) == Seq::<char>::empty() && first_port(ports)
            == Seq::<char>::empty(),
        ports.len() > 0 ==> first_port(ports) == ports[0],
{
    if 0 <= i < ports.len() && ports[i] == port {
        assert(ports.contains(port));
    }
}

/// The window is busy while an upload connects or runs and while settings are exchanged, and
/// at no other time.
pub proof fn law_when_the_window_is_busy(v: AppView)
    ensures
        is_busy(v) <==> v.upload_state is Connecting || v.upload_state is Running
            || v.settings_state is Busy,
        uploading(v.upload_state) <==> v.upload_state is Connecting || v.upload_state is Running,
{
}

/// An upload can be started where a port and all three files are chosen and the window is not
/// busy; settings can be exchanged where a port is chosen and the window is not busy.
pub proof fn law_what_can_be_started(v: AppView)
    ensures
        can_upload(v) <==> !is_busy(v) && v.port.len() > 0 && v.ca_path.len() > 0
            && v.client_cert_path.len() > 0 && v.client_key_path.len() > 0,
        can_exchange(v) <==> !is_busy(v) && v.port.len() > 0,
{
}

/// An upload is asked for with what the window shows, field by field.
pub proof fn law_what_an_upload_is_asked_for_with(v: AppView, params: UploadParams)
    requires
        params_shown(v, params),
    ensures
        params.port@ == v.port,
        params.device_type == v.device_type,
        params.sec_tag == v.sec_tag,
        params.ca_path@ == v.ca_path,
        params.client_cert_path@ == v.client_cert_path,
        params.client_key_path@ == v.client_key_path,
        chosen_paths(v) == seq![v.ca_path, v.client_cert_path, v.client_key_path],
        local_paths(params) == chosen_paths(v),
{
    assert(local_paths(params) =~= chosen_paths(v));
}

/// Progress is shown as it is reported, and an outcome as what it is.
pub proof fn law_what_outcomes_lead_to(p: UploadProgress, e: String, text: String)
    ensures
        running(p) == (UploadStateView::Running {
            file_index: p.file_index,
            file_label: p.file_label@,
            remote_path: p.remote_path@,
            transferred: p.transferred,
            total: p.total,
        }),
        upload_ended(Ok(())) is Done,
        upload_ended(Err(e)) == UploadStateView::Error(e@),
        write_ended(Ok(())) is Done,
        write_ended(Err(e)) == SettingsStateView::Error(e@),
        read_ended(Ok(text)) is Done,
        read_ended(Err(e)) == SettingsStateView::Error(e@),
{
}

/// Another security tag clears an outcome and nothing else.
pub proof fn law_what_a_choice_of_tag_clears(s: UploadStateView)
    ensures
        s is Done || s is Error ==> outcome_cleared(s) is Idle,
        !(s is Done || s is Error) ==> outcome_cleared(s) == s,
{
}

/// A reply that holds settings fills the fields with them; any other outcome leaves them.
pub proof fn law_what_a_read_does_to_the_fields(fields: MqttView, json: String, e: String)
    ensures
        fields_after_read(fields, None) == fields,
        fields_after_read(fields, Some(Err(e))) == fields,
        parsed_json(json@) is None ==> fields_after_read(fields, Some(Ok(json))) == fields,
        (parsed_json(json@) matches Some(tree) ==> {
            &&& json_member(tree, "dt_trans_mqtt"@) is None ==> fields_after_read(
                fields,
                Some(Ok(json)),
            ) == fields
            &&& (json_member(tree, "dt_trans_mqtt"@) matches Some(section) ==> fields_after_read(
                fields,
                Some(Ok(json)),
            ) == settings_in(section))
        }),
{
    if parsed_json(json@) is Some {
        law_settings_of_a_reply(parsed_json(json@)->0);
    }
}

/// What is said of an upload.
pub proof fn law_what_is_said_of_an_upload(shown: UploadStatus, v: AppView)
    requires
        is_upload_status(shown, v),
    ensures
        v.upload_state is Idle ==> shown is Nothing,
        v.upload_state is Connecting ==> (shown matches UploadStatus::Waiting(label) && label@
            == "Connecting to device..."@),
        (v.upload_state matches UploadStateView::Error(e) ==> (shown matches UploadStatus::Failure(
            label,
        ) && label@ == "✖  Error: "@ + e)),
        v.upload_state is Done ==> (shown matches UploadStatus::Success { heading, stored } && {
            &&& heading@ == "✔  All certificates uploaded successfully (sec_tag: "@ + decimal(
                v.sec_tag as nat,
            ) + ")"@
            &&& stored@.len() == 3
            &&& stored@[0]@ == "  "@ + ("/storage/ca_"@ + decimal(v.sec_tag as nat) + ".crt"@)
            &&& stored@[1]@ == "  "@ + ("/storage/client_"@ + decimal(v.sec_tag as nat) + ".crt"@)
            &&& stored@[2]@ == "  "@ + ("/storage/client_"@ + decimal(v.sec_tag as nat) + ".key"@)
        }),
        (v.upload_state matches UploadStateView::Running {
            file_index: index,
            file_label: label,
            remote_path: path,
            transferred: done,
            total: all,
        } ==> {
            &&& index == usize::MAX ==> (shown matches UploadStatus::Waiting(l) && l@
                == "Initializing..."@)
            &&& index != usize::MAX ==> (shown matches UploadStatus::Progress {
                heading,
                file_index,
                transferred,
                total,
                detail,
            } && {
                &&& heading@ == "["@ + decimal((index + 1) as nat) + "/3] "@ + label + " → "@ + path
                &&& file_index == index
                &&& transferred == done
                &&& total == all
                &&& detail@ == decimal(done as nat) + " / "@ + decimal(all as nat) + " bytes"@
            })
        }),
{
    law_remote_paths_name_the_tag(v.sec_tag);
    if v.upload_state is Done {
        let stored = shown->stored;
        assert(stored@[0]@ == "  "@ + remote_path(v.sec_tag, 0));
        assert(stored@[1]@ == "  "@ + remote_path(v.sec_tag, 1));
        assert(stored@[2]@ == "  "@ + remote_path(v.sec_tag, 2));
    }
}

/// What is said of an exchange of settings.
pub proof fn law_what_is_said_of_settings(shown: SettingsStatus, v: AppView)
    requires
        is_settings_status(shown, v),
    ensures
        v.settings_state is Idle ==> shown is Nothing,
        v.settings_state is Busy ==> (shown matches SettingsStatus::Waiting(label) && label@
            == "Communicating with device..."@),
        v.settings_state is Done ==> (shown matches SettingsStatus::Success(label) && label@
            == "✔  Done."@),
        (v.settings_state matches SettingsStateView::Error(e) ==> (
        shown matches SettingsStatus::Failure(label) && label@ == "✖  Error: "@ + e)),
{
}

} // verus!
