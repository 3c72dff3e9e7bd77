use dt_cert_uploader::certs::{CertFileSizes, UploadParams};
use dt_cert_uploader::device::DeviceType;
use dt_cert_uploader::upload::{upload_certificates, Upload, UploadStep};

fn params() -> UploadParams {
    UploadParams {
        port: "/dev/ttyACM0".to_string(),
        device_type: DeviceType::DronetagTransmitter,
        sec_tag: 2,
        ca_path: "a".to_string(),
        client_cert_path: "b".to_string(),
        client_key_path: "c".to_string(),
    }
}

fn start(key_size: u64) -> Upload {
    upload_certificates(
        &params(),
        &CertFileSizes { ca: Ok(10), client_cert: Ok(20), client_key: Ok(key_size) },
    )
}

fn describe(step: UploadStep) -> String {
    match step {
        UploadStep::OpenPort { port, baud_rate, timeout_secs, mux_addr } => {
            format!("open {} {} {} {}", port, baud_rate, timeout_secs, mux_addr)
        }
        UploadStep::Announce(p) => format!(
            "announce {} '{}' '{}' {}/{}",
            p.file_index == usize::MAX,
            p.file_label,
            p.remote_path,
            p.transferred,
            p.total
        ),
        UploadStep::Probe { retries, timeout_secs } => format!("probe {} {}", retries, timeout_secs),
        UploadStep::ReadFile { local_path } => format!("read {}", local_path),
        UploadStep::SendFile { remote_path, data, size } => {
            assert_eq!(data.len() as u64, size);
            format!("send {} to {}", String::from_utf8(data).unwrap(), remote_path)
        }
        UploadStep::Finish(r) => format!("finish {:?}", r),
    }
}

/// What a step that succeeds is answered by: a file that is read holds its name in brackets.
fn success(step: UploadStep) -> Result<Vec<u8>, String> {
    match step {
        UploadStep::ReadFile { local_path } => Ok(format!("[{}]", local_path).into_bytes()),
        _ => Ok(b"not a file".to_vec()),
    }
}

const STEPS: [&str; 10] = [
    "open /dev/ttyACM0 500000 2 17",
    "announce true 'Initializing...' '' 0/1",
    "probe 0 2",
    "read a",
    "send [a] to /storage/ca_2.crt",
    "read b",
    "send [b] to /storage/client_2.crt",
    "read c",
    "send [c] to /storage/client_2.key",
    "finish Ok(())",
];

#[test]
fn steps_in_order() {
    let mut u = start(30);
    for want in STEPS {
        assert_eq!(describe(u.step()), want);
        u.advance(success(u.step()));
    }
    u.advance(Err("late".to_string()));
    assert_eq!(describe(u.step()), "finish Ok(())");
}

#[test]
fn refused_files_end_the_upload_at_once() {
    let u = start(0);
    assert_eq!(describe(u.step()), "finish Err(\"Client Private Key: file 'c' is empty\")");
}

#[test]
fn first_failure_ends_the_upload() {
    let reports = [
        "Failed to open serial port '/dev/ttyACM0': why",
        "Upload aborted",
        "Device did not respond (wrong port, device type, or mux address?): why",
        "Failed to read 'a': why",
        "Failed to upload 'a': why",
        "Failed to read 'b': why",
        "Failed to upload 'b': why",
        "Failed to read 'c': why",
        "Failed to upload 'c': why",
    ];
    for (k, report) in reports.iter().enumerate() {
        let mut u = start(30);
        for _ in 0..k {
            u.advance(success(u.step()));
        }
        u.advance(Err("why".to_string()));
        assert_eq!(describe(u.step()), format!("finish Err({:?})", report));
        u.advance(Ok(Vec::new()));
        assert_eq!(describe(u.step()), format!("finish Err({:?})", report));
    }
}

#[test]
fn progress_only_while_sending() {
    let mut u = start(30);
    let labels = ["CA Certificate", "Client Certificate", "Client Private Key"];
    let mut seen = 0;
    for want in STEPS {
        match u.progress(5, 10) {
            Some(p) => {
                assert!(want.starts_with("send "));
                assert_eq!(p.file_index, seen);
                assert_eq!(p.file_label, labels[seen]);
                assert!(want.ends_with(&format!(" to {}", p.remote_path)));
                assert_eq!((p.transferred, p.total), (5, 10));
                seen += 1;
            }
            None => assert!(!want.starts_with("send ")),
        }
        u.advance(success(u.step()));
    }
    assert_eq!(seen, 3);
}

#[test]
fn files_are_sent_as_they_were_read() {
    let mut u = start(30);
    for _ in 0..3 {
        u.advance(Ok(Vec::new()));
    }
    for contents in [vec![0u8, 0xFF, 0x0A], Vec::new(), vec![7u8; 6000]] {
        assert!(matches!(u.step(), UploadStep::ReadFile { .. }));
        u.advance(Ok(contents.clone()));
        match u.step() {
            UploadStep::SendFile { data, size, .. } => {
                assert_eq!(data, contents);
                assert_eq!(size, contents.len() as u64);
            }
            _ => panic!("nothing sent"),
        }
        u.advance(Ok(vec![1]));
    }
    assert!(matches!(u.step(), UploadStep::Finish(Ok(()))));
}
