use dt_cert_uploader::certs::{
    build_file_list, check_cert_file, is_acceptable, remote_paths, validate_cert_files,
    CertFileSizes, UploadParams, MAX_CERT_FILE_SIZE,
};
use dt_cert_uploader::device::DeviceType;
use dt_cert_uploader::report::{upload_banner, upload_summary};

fn params() -> UploadParams {
    UploadParams {
        port: "COM3".to_string(),
        device_type: DeviceType::DronetagRider,
        sec_tag: 7,
        ca_path: "ca.pem".to_string(),
        client_cert_path: "client.pem".to_string(),
        client_key_path: "client.key".to_string(),
    }
}

fn sizes(ca: u64, cert: u64, key: u64) -> CertFileSizes {
    CertFileSizes { ca: Ok(ca), client_cert: Ok(cert), client_key: Ok(key) }
}

#[test]
fn file_list() {
    let list = build_file_list(&params());
    let expected = [
        ("ca.pem", "/storage/ca_7.crt", "CA Certificate"),
        ("client.pem", "/storage/client_7.crt", "Client Certificate"),
        ("client.key", "/storage/client_7.key", "Client Private Key"),
    ];
    assert_eq!(list.len(), 3);
    for (entry, want) in list.iter().zip(expected) {
        assert_eq!((entry.0.as_str(), entry.1.as_str(), entry.2.as_str()), want);
    }
}

#[test]
fn remote_paths_are_distinct() {
    let mut all: Vec<String> = Vec::new();
    for tag in 0u8..=255 {
        all.extend(remote_paths(tag));
    }
    assert!(all.contains(&"/storage/client_255.key".to_string()));
    all.sort();
    all.dedup();
    assert_eq!(all.len(), 768);
}

#[test]
fn sizes_at_the_limits() {
    assert_eq!(MAX_CERT_FILE_SIZE, 5120);
    assert_eq!(validate_cert_files(&params(), &sizes(1, 5120, 300)), Ok(()));
    assert_eq!(
        validate_cert_files(&params(), &sizes(1, 0, 0)),
        Err("Client Certificate: file 'client.pem' is empty".to_string())
    );
    assert_eq!(
        validate_cert_files(&params(), &sizes(1, 1, 5121)),
        Err("Client Private Key: file 'client.key' is too large (5121 bytes, maximum is 5120 bytes / 5 KB)"
            .to_string())
    );
}

#[test]
fn first_bad_file_is_reported() {
    let s = CertFileSizes {
        ca: Err("No such file or directory (os error 2)".to_string()),
        client_cert: Ok(0),
        client_key: Ok(9999),
    };
    assert_eq!(
        validate_cert_files(&params(), &s),
        Err("CA Certificate: cannot read file 'ca.pem': No such file or directory (os error 2)".to_string())
    );
}

#[test]
fn one_file() {
    assert_eq!(check_cert_file("L", "p", &Ok(10)), Ok(()));
    assert_eq!(check_cert_file("L", "p", &Ok(0)), Err("L: file 'p' is empty".to_string()));
    assert_eq!(check_cert_file("L", "p", &Err("e".to_string())), Err("L: cannot read file 'p': e".to_string()));
}

#[test]
fn printed_reports() {
    assert_eq!(
        upload_banner(&params()),
        "Device:       Dronetag RIDER (mux 0x23, 115200 baud)\nSecurity tag: 7\n\nUploading...\n"
    );
    assert_eq!(
        upload_summary(3),
        "Done.\n\nAll certificates uploaded successfully.\n  CA cert:     /storage/ca_3.crt\n  Client cert: /storage/client_3.crt\n  Client key:  /storage/client_3.key\n"
    );
}

#[test]
fn files_after_a_refused_one_do_not_matter() {
    let client_cert = || Ok(MAX_CERT_FILE_SIZE + 1);
    assert!(is_acceptable(&Ok(1)));
    assert!(is_acceptable(&Ok(MAX_CERT_FILE_SIZE)));
    assert!(!is_acceptable(&Ok(0)));
    assert!(!is_acceptable(&client_cert()));
    assert!(!is_acceptable(&Err("denied".to_string())));
    let one = CertFileSizes { ca: Ok(1), client_cert: client_cert(), client_key: Ok(1) };
    let other =
        CertFileSizes { ca: Ok(1), client_cert: client_cert(), client_key: Err("x".to_string()) };
    assert!(validate_cert_files(&params(), &one).is_err());
    assert_eq!(validate_cert_files(&params(), &one), validate_cert_files(&params(), &other));
}
