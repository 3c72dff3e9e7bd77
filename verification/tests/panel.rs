use dt_cert_uploader::certs::CertFileSizes;
use dt_cert_uploader::device::DeviceType;
use dt_cert_uploader::panel::{
    filter_extensions, list_serial_ports, port_refresh_is_due, App, SettingsState, SettingsStatus, Tab,
    UploadState, UploadStatus,
};
use dt_cert_uploader::upload::UploadProgress;

fn names(list: &[&str]) -> Vec<String> {
    list.iter().map(|s| s.to_string()).collect()
}

fn filled() -> App {
    let mut app = App::new(names(&["COM3", "COM4"]));
    app.ca_path = "a".to_string();
    app.client_cert_path = "b".to_string();
    app.client_key_path = "c".to_string();
    app
}

fn good() -> CertFileSizes {
    CertFileSizes { ca: Ok(1), client_cert: Ok(2), client_key: Ok(3) }
}

fn progress(file_index: usize) -> UploadProgress {
    UploadProgress {
        file_index,
        file_label: "CA Certificate".to_string(),
        remote_path: "/storage/ca_1.crt".to_string(),
        transferred: 100,
        total: 2048,
    }
}

#[test]
fn window_as_it_opens() {
    let app = App::new(names(&["COM3", "COM4"]));
    assert_eq!(app.port, "COM3");
    assert_eq!(app.device_type, DeviceType::DronetagTransmitter);
    assert_eq!(app.active_tab, Tab::Certificates);
    assert_eq!((app.ca_path.as_str(), app.sec_tag), ("", 1));
    assert_eq!(app.mqtt.port, "8883");
    assert!(matches!(app.upload_state, UploadState::Idle));
    assert!(matches!(app.settings_state, SettingsState::Idle));
    assert!(app.read_result.is_none());
    assert_eq!(App::new(Vec::new()).port, "");
}

#[test]
fn ports_come_and_go() {
    let mut app = App::new(names(&["COM3", "COM4"]));
    app.port = "COM4".to_string();
    app.refresh_ports(names(&["COM1", "COM4"]));
    assert_eq!(app.port, "COM4");
    app.refresh_ports(names(&["COM1"]));
    assert_eq!(app.port, "COM1");
    app.refresh_ports(Vec::new());
    assert_eq!(app.port, "");
    assert_eq!(app.available_ports, Vec::<String>::new());
    assert!(!port_refresh_is_due(500_000_000));
    assert!(port_refresh_is_due(500_000_001));
    assert_eq!(list_serial_ports(Ok(names(&["x"]))), names(&["x"]));
    assert_eq!(list_serial_ports(Err("denied".to_string())), Vec::<String>::new());
}

#[test]
fn upload_from_press_to_end() {
    let mut app = filled();
    assert!(app.upload_ready());
    assert!(!app.is_busy());
    let params = app.press_upload(&good()).unwrap();
    assert_eq!((params.port.as_str(), params.sec_tag), ("COM3", 1));
    assert_eq!(
        (params.ca_path.as_str(), params.client_cert_path.as_str(), params.client_key_path.as_str()),
        ("a", "b", "c")
    );
    assert!(app.is_uploading());
    assert!(app.is_busy());
    assert!(!app.upload_ready());
    assert!(matches!(app.upload_status(), UploadStatus::Waiting(l) if l == "Connecting to device..."));
    assert!(app.upload_progress(progress(usize::MAX)));
    assert!(matches!(app.upload_status(), UploadStatus::Waiting(l) if l == "Initializing..."));
    assert!(app.upload_progress(progress(0)));
    match app.upload_status() {
        UploadStatus::Progress { heading, file_index, transferred, total, detail } => {
            assert_eq!(heading, "[1/3] CA Certificate → /storage/ca_1.crt");
            assert_eq!((file_index, transferred, total), (0, 100, 2048));
            assert_eq!(detail, "100 / 2048 bytes");
        }
        _ => panic!("no progress"),
    }
    app.choose_sec_tag(4);
    assert!(app.is_uploading());
    app.upload_finished(Ok(()));
    assert!(!app.is_uploading());
    match app.upload_status() {
        UploadStatus::Success { heading, stored } => {
            assert_eq!(heading, "✔  All certificates uploaded successfully (sec_tag: 4)");
            assert_eq!(
                stored,
                names(&["  /storage/ca_4.crt", "  /storage/client_4.crt", "  /storage/client_4.key"])
            );
        }
        _ => panic!("no success"),
    }
    app.choose_sec_tag(5);
    assert!(matches!(app.upload_status(), UploadStatus::Nothing));
}

#[test]
fn refused_upload_is_shown() {
    let mut app = filled();
    let sizes = CertFileSizes { ca: Ok(1), client_cert: Ok(0), client_key: Ok(3) };
    assert!(app.press_upload(&sizes).is_none());
    assert!(!app.is_uploading());
    assert!(matches!(
        app.upload_status(),
        UploadStatus::Failure(l) if l == "✖  Error: Client Certificate: file 'b' is empty"
    ));
    app.upload_finished(Err("gone".to_string()));
    assert!(matches!(app.upload_state, UploadState::Error(ref e) if e == "gone"));
    app.choose_sec_tag(1);
    assert!(matches!(app.upload_state, UploadState::Idle));
}

#[test]
fn upload_needs_every_field() {
    assert!(filled().upload_ready());
    for i in 0..4 {
        let mut app = filled();
        match i {
            0 => app.port.clear(),
            1 => app.ca_path.clear(),
            2 => app.client_cert_path.clear(),
            _ => app.client_key_path.clear(),
        }
        assert!(!app.upload_ready());
    }
}

#[test]
fn settings_are_read() {
    let mut app = filled();
    assert!(app.settings_ready());
    app.start_read_settings();
    assert!(app.is_busy());
    assert!(!app.settings_ready());
    assert!(!app.upload_ready());
    assert!(app.is_settings_busy());
    assert!(matches!(app.settings_status(), SettingsStatus::Waiting(l) if l == "Communicating with device..."));
    app.read_finished(Ok("{\"dt_trans_mqtt\": {\"port\": 1}}".to_string()));
    assert!(!app.is_settings_busy());
    assert_eq!(app.mqtt.port, "8883");
    app.apply_read_result();
    assert_eq!(app.mqtt.port, "1");
    assert!(app.read_result.is_none());
    assert!(matches!(app.settings_status(), SettingsStatus::Success(l) if l == "✔  Done."));
    for reply in ["{}", "garbage"] {
        app.read_finished(Ok(reply.to_string()));
        app.apply_read_result();
        assert_eq!(app.mqtt.port, "1");
    }
    app.read_finished(Err("lost".to_string()));
    app.apply_read_result();
    assert_eq!(app.mqtt.port, "1");
    assert!(matches!(app.settings_status(), SettingsStatus::Failure(l) if l == "✖  Error: lost"));
    app.port.clear();
    assert!(!app.settings_ready());
}

#[test]
fn new_read_drops_an_old_outcome() {
    let mut app = filled();
    app.start_read_settings();
    app.read_finished(Ok("{\"dt_trans_mqtt\": {\"port\": 1}}".to_string()));
    app.start_read_settings();
    assert!(app.read_result.is_none());
    app.apply_read_result();
    assert_eq!(app.mqtt.port, "8883");
    assert!(app.is_settings_busy());
}

#[test]
fn settings_are_written() {
    let mut app = filled();
    let json = app.press_write().unwrap();
    assert!(json.contains("\"port\":8883"));
    assert!(app.is_settings_busy());
    app.write_finished(Ok(()));
    assert!(matches!(app.settings_state, SettingsState::Done));
    app.mqtt.port = "x".to_string();
    assert!(app.press_write().is_none());
    assert!(matches!(app.settings_state, SettingsState::Error(ref e) if e == "Invalid port number: 'x'"));
    app.write_finished(Err("lost".to_string()));
    assert!(matches!(app.settings_state, SettingsState::Error(ref e) if e == "lost"));
}

#[test]
fn extensions_of_a_filter() {
    assert_eq!(filter_extensions("*.pem *.crt *.cer"), names(&["pem", "crt", "cer"]));
    assert_eq!(filter_extensions("*.*.key  txt *"), names(&["key", "txt", "*"]));
    assert_eq!(filter_extensions(""), Vec::<String>::new());
}
