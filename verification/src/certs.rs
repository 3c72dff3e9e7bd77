//! The three certificate files: where they come from, where they go, and which sizes
//! are accepted.

use vstd::prelude::*;
use vstd::string::*;

use crate::device::DeviceType;
use crate::text::{
    decimal, is_digit, law_decimal_round_trip, law_how_numbers_are_written, lemma_decimal_value,
    push_decimal, unsigned_value,
};

verus! {

/// The three certificate files to upload, plus connection parameters.
pub struct UploadParams {
    pub port: String,
    pub device_type: DeviceType,
    pub sec_tag: u8,
    pub ca_path: String,
    pub client_cert_path: String,
    pub client_key_path: String,
}

pub open spec fn file_label(i: int) -> Seq<char> {
    if i == 0 {
        "CA Certificate"@
    } else if i == 1 {
        "Client Certificate"@
    } else {
        "Client Private Key"@
    }
}

/// Where the three files lie on this machine.
pub open spec fn local_paths(params: UploadParams) -> Seq<Seq<char>> {
    seq![params.ca_path@, params.client_cert_path@, params.client_key_path@]
}

pub open spec fn remote_prefix(i: int) -> Seq<char> {
    if i == 0 {
        "/storage/ca_"@
    } else {
        "/storage/client_"@
    }
}

pub open spec fn remote_suffix(i: int) -> Seq<char> {
    if i == 2 {
        ".key"@
    } else {
        ".crt"@
    }
}

/// Where file `i` is stored on a device, for the security tag `sec_tag`.
pub open spec fn remote_path(sec_tag: u8, i: int) -> Seq<char> {
    remote_prefix(i) + decimal(sec_tag as nat) + remote_suffix(i)
}

/// A list entry says what is to be known of file `i`: local path, remote path, label.
pub open spec fn is_file_entry(
    entry: (String, String, String),
    params: UploadParams,
    i: int,
) -> bool {
    &&& entry.0@ == local_paths(params)[i]
    &&& entry.1@ == remote_path(params.sec_tag, i)
    &&& entry.2@ == file_label(i)
}

/// Every file of every security tag has a remote path of its own.
pub proof fn law_remote_paths_are_distinct(s: u8, i: int, t: u8, j: int)
    requires
        0 <= i < 3,
        0 <= j < 3,
        remote_path(s, i) == remote_path(t, j),
    ensures
        s == t,
        i == j,
{
    reveal_strlit("/storage/ca_");
    reveal_strlit("/storage/client_");
    reveal_strlit(".crt");
    reveal_strlit(".key");
    let p = remote_path(s, i);
    lemma_decimal_value(s as nat);
    lemma_decimal_value(t as nat);
    if i == 0 {
        assert(p[10] == 'a');
    } else {
        assert(p[10] == 'l');
    }
    if j == 0 {
        assert(p[10] == 'a');
    } else {
        assert(p[10] == 'l');
    }
    if i == 2 {
        assert(p[p.len() - 1] == 'y');
    } else {
        assert(p[p.len() - 1] == 't');
    }
    if j == 2 {
        assert(p[p.len() - 1] == 'y');
    } else {
        assert(p[p.len() - 1] == 't');
    }
    assert(i == j);
    let a = remote_prefix(i).len() as int;
    let b = p.len() - remote_suffix(i).len();
    assert(p.subrange(a, b) =~= decimal(s as nat));
    assert(p.subrange(a, b) =~= decimal(t as nat));
}

fn tagged_path(prefix: &str, sec_tag: u8, suffix: &str) -> (r: String)
    ensures
        r@ == prefix@ + decimal(sec_tag as nat) + suffix@,
{
    let mut s = prefix.to_string();
    push_decimal(&mut s, sec_tag as u64);
    s.append(suffix);
    s
}

/// Where the three files are stored on a device.
pub fn remote_paths(sec_tag: u8) -> (r: [String; 3])
    ensures
        forall|i: int| 0 <= i < 3 ==> (#[trigger] r@[i])@ == remote_path(sec_tag, i),
        r@[0]@ == "/storage/ca_"@ + decimal(sec_tag as nat) + ".crt"@,
        r@[1]@ == "/storage/client_"@ + decimal(sec_tag as nat) + ".crt"@,
        r@[2]@ == "/storage/client_"@ + decimal(sec_tag as nat) + ".key"@,
{
    [
        tagged_path("/storage/ca_", sec_tag, ".crt"),
        tagged_path("/storage/client_", sec_tag, ".crt"),
        tagged_path("/storage/client_", sec_tag, ".key"),
    ]
}

/// The files to upload, in order: local path, remote path, label.
pub fn build_file_list(params: &UploadParams) -> (r: Vec<(String, String, String)>)
    ensures
        r@.len() == 3,
        forall|i: int| 0 <= i < 3 ==> is_file_entry(#[trigger] r@[i], *params, i),
        r@[0].0@ == params.ca_path@,
        r@[1].0@ == params.client_cert_path@,
        r@[2].0@ == params.client_key_path@,
        r@[0].1@ == "/storage/ca_"@ + decimal(params.sec_tag as nat) + ".crt"@,
        r@[1].1@ == "/storage/client_"@ + decimal(params.sec_tag as nat) + ".crt"@,
        r@[2].1@ == "/storage/client_"@ + decimal(params.sec_tag as nat) + ".key"@,
        r@[0].2@ == "CA Certificate"@,
        r@[1].2@ == "Client Certificate"@,
        r@[2].2@ == "Client Private Key"@,
{
    vec![
        (
            params.ca_path.clone(),
            tagged_path("/storage/ca_", params.sec_tag, ".crt"),
            "CA Certificate".to_string(),
        ),
        (
            params.client_cert_path.clone(),
            tagged_path("/storage/client_", params.sec_tag, ".crt"),
            "Client Certificate".to_string(),
        ),
        (
            params.client_key_path.clone(),
            tagged_path("/storage/client_", params.sec_tag, ".key"),
            "Client Private Key".to_string(),
        ),
    ]
}

/// Maximum allowed certificate file size (5 KB: 4 KB typical + 25% reserve).
pub const MAX_CERT_FILE_SIZE: u64 = 5 * 1024;

/// What was found out about the size of each certificate file: its size in bytes, or why
/// the file could not be looked at.
pub struct CertFileSizes {
    pub ca: Result<u64, String>,
    pub client_cert: Result<u64, String>,
    pub client_key: Result<u64, String>,
}

pub open spec fn found_size(sizes: CertFileSizes, i: int) -> Result<u64, String> {
    if i == 0 {
        sizes.ca
    } else if i == 1 {
        sizes.client_cert
    } else {
        sizes.client_key
    }
}

/// The file can be looked at, is not empty, and is not too large.
pub open spec fn acceptable(size: Result<u64, String>) -> bool {
    size matches Ok(n) && 0 < n <= MAX_CERT_FILE_SIZE
}

/// The complaint about a file that is not acceptable.
pub open spec fn size_complaint(
    label: Seq<char>,
    path: Seq<char>,
    size: Result<u64, String>,
) -> Seq<char> {
    match size {
        Err(e) => label + ": cannot read file '"@ + path + "': "@ + e@,
        Ok(n) => if n == 0 {
            label + ": file '"@ + path + "' is empty"@
        } else {
            label + ": file '"@ + path + "' is too large ("@ + decimal(n as nat)
                + " bytes, maximum is "@ + decimal(MAX_CERT_FILE_SIZE as nat) + " bytes / "@
                + decimal((MAX_CERT_FILE_SIZE / 1024) as nat) + " KB)"@
        },
    }
}

/// Whether the file can be looked at, is not empty, and is not too large.
pub fn is_acceptable(size: &Result<u64, String>) -> (r: bool)
    ensures
        r == acceptable(*size),
        r <==> (*size matches Ok(n) && 1 <= n <= 5120),
{
    match size {
        Ok(n) => 0 < *n && *n <= MAX_CERT_FILE_SIZE,
        Err(_) => false,
    }
}

/// Checks one certificate file.
pub fn check_cert_file(label: &str, path: &str, size: &Result<u64, String>) -> (r: Result<
    (),
    String,
>)
    ensures
        acceptable(*size) ==> r is Ok,
        !acceptable(*size) ==> (r matches Err(e) && e@ == size_complaint(label@, path@, *size)),
        r is Ok <==> (*size matches Ok(n) && 1 <= n <= 5120),
{
    let mut s = label.to_string();
    match size {
        Err(e) => {
            s.append(": cannot read file '");
            s.append(path);
            s.append("': ");
            s.append(e.as_str());
            Err(s)
        },
        Ok(n) => {
            if *n == 0 {
                s.append(": file '");
                s.append(path);
                s.append("' is empty");
                Err(s)
            } else if *n > MAX_CERT_FILE_SIZE {
                s.append(": file '");
                s.append(path);
                s.append("' is too large (");
                push_decimal(&mut s, *n);
                s.append(" bytes, maximum is ");
                push_decimal(&mut s, MAX_CERT_FILE_SIZE);
                s.append(" bytes / ");
                push_decimal(&mut s, MAX_CERT_FILE_SIZE / 1024);
                s.append(" KB)");
                Err(s)
            } else {
                Ok(())
            }
        },
    }
}

/// The first of the three files that is not acceptable, or 3.
pub open spec fn first_refused(sizes: CertFileSizes) -> int {
    if !acceptable(sizes.ca) {
        0
    } else if !acceptable(sizes.client_cert) {
        1
    } else if !acceptable(sizes.client_key) {
        2
    } else {
        3
    }
}

/// The complaint about the first file that is not acceptable, for files at `paths`.
pub open spec fn validation_complaint(paths: Seq<Seq<char>>, sizes: CertFileSizes) -> Seq<char> {
    let i = first_refused(sizes);
    size_complaint(file_label(i), paths[i], found_size(sizes, i))
}

/// All three files are acceptable.
pub open spec fn all_acceptable(sizes: CertFileSizes) -> bool {
    acceptable(sizes.ca) && acceptable(sizes.client_cert) && acceptable(sizes.client_key)
}

/// What is found out about the files after the first that is not acceptable does not matter.
pub proof fn law_files_after_a_refused_one_do_not_matter(
    paths: Seq<Seq<char>>,
    a: CertFileSizes,
    b: CertFileSizes,
)
    requires
        !all_acceptable(a),
        forall|i: int| 0 <= i <= first_refused(a) ==> found_size(a, i) == #[trigger] found_size(b, i),
    ensures
        !all_acceptable(b),
        validation_complaint(paths, b) == validation_complaint(paths, a),
{
    let i = first_refused(a);
    assert(found_size(a, i) == found_size(b, i));
    assert(found_size(a, 0) == found_size(b, 0));
    if i >= 1 {
        assert(found_size(a, 1) == found_size(b, 1));
    }
}

/// Validates all certificate files, by their paths and sizes, before an upload is
/// attempted. The complaint is about the first file that is not acceptable.
pub fn validate_cert_files(params: &UploadParams, sizes: &CertFileSizes) -> (r: Result<(), String>)
    ensures
        r is Ok <==> all_acceptable(*sizes),
        r is Ok <==> {
            &&& sizes.ca matches Ok(n) && 1 <= n <= 5120
            &&& sizes.client_cert matches Ok(n) && 1 <= n <= 5120
            &&& sizes.client_key matches Ok(n) && 1 <= n <= 5120
        },
        r matches Err(e) ==> e@ == validation_complaint(local_paths(*params), *sizes),
{
    match check_cert_file("CA Certificate", params.ca_path.as_str(), &sizes.ca) {
        Err(e) => return Err(e),
        Ok(()) => {},
    }
    match check_cert_file(
        "Client Certificate",
        params.client_cert_path.as_str(),
        &sizes.client_cert,
    ) {
        Err(e) => return Err(e),
        Ok(()) => {},
    }
    check_cert_file("Client Private Key", params.client_key_path.as_str(), &sizes.client_key)
}

// ---------------------------------------------------------------------------
// Paths and sizes
// ---------------------------------------------------------------------------

/// The remote paths are those of the security tag itself.
pub proof fn law_remote_paths_name_the_tag(sec_tag: u8)
    ensures
        remote_path(sec_tag, 0) == "/storage/ca_"@ + decimal(sec_tag as nat) + ".crt"@,
        remote_path(sec_tag, 1) == "/storage/client_"@ + decimal(sec_tag as nat) + ".crt"@,
        remote_path(sec_tag, 2) == "/storage/client_"@ + decimal(sec_tag as nat) + ".key"@,
{
}

/// The security tag can be read back from a remote path: between the fixed start and the
/// fixed end stand digits, the first of them no zero but for the tag zero, and they spell the
/// tag.
pub proof fn law_tag_is_read_back_from_path(sec_tag: u8, i: int)
    requires
        0 <= i < 3,
    ensures
        ({
            let path = remote_path(sec_tag, i);
            let start: int = if i == 0 {
                12
            } else {
                16
            };
            let digits = path.subrange(start, path.len() - 4);
            &&& path.len() > start + 4
            &&& path.take(start) == (if i == 0 {
                "/storage/ca_"@
            } else {
                "/storage/client_"@
            })
            &&& path.skip(path.len() - 4) == (if i == 2 {
                ".key"@
            } else {
                ".crt"@
            })
            &&& forall|k: int| 0 <= k < digits.len() ==> '0' <= #[trigger] digits[k] <= '9'
            &&& digits.len() > 1 ==> digits[0] != '0'
            &&& unsigned_value(digits) == Some(sec_tag as nat)
        }),
{
    reveal_strlit("/storage/ca_");
    reveal_strlit("/storage/client_");
    reveal_strlit(".crt");
    reveal_strlit(".key");
    let path = remote_path(sec_tag, i);
    let start: int = if i == 0 {
        12
    } else {
        16
    };
    lemma_decimal_value(sec_tag as nat);
    law_decimal_round_trip(sec_tag as nat, sec_tag as nat);
    assert(path.subrange(start, path.len() - 4) =~= decimal(sec_tag as nat));
    assert(path.take(start) =~= remote_prefix(i));
    assert(path.skip(path.len() - 4) =~= remote_suffix(i));
    assert forall|k: int| 0 <= k < decimal(sec_tag as nat).len() implies '0' <= #[trigger] decimal(
        sec_tag as nat,
    )[k] <= '9' by {
        assert(is_digit(decimal(sec_tag as nat)[k]));
    }
    if sec_tag > 0 {
        law_how_numbers_are_written(sec_tag as nat, 0);
    } else {
        law_how_numbers_are_written(0, 0);
    }
}

/// The three files in their order: where they lie, and what they are called.
pub proof fn law_order_of_the_files(params: UploadParams)
    ensures
        local_paths(params).len() == 3,
        local_paths(params)[0] == params.ca_path@,
        local_paths(params)[1] == params.client_cert_path@,
        local_paths(params)[2] == params.client_key_path@,
        file_label(0) == "CA Certificate"@,
        file_label(1) == "Client Certificate"@,
        file_label(2) == "Client Private Key"@,
{
}

/// A file is acceptable exactly where its size is known and lies in 1 to 5120 bytes.
pub proof fn law_acceptable_sizes(n: u64, e: String)
    ensures
        acceptable(Ok(n)) <==> 1 <= n <= 5120,
        !acceptable(Err(e)),
{
}

/// Every size between two acceptable ones is acceptable.
pub proof fn law_acceptable_sizes_are_one_range(low: u64, n: u64, high: u64)
    requires
        low <= n <= high,
        acceptable(Ok(low)),
        acceptable(Ok(high)),
    ensures
        acceptable(Ok(n)),
{
}

/// The complaint says what is wrong with a file: it cannot be read, is empty, or is larger
/// than 5120 bytes.
pub proof fn law_complaints_about_sizes(label: Seq<char>, path: Seq<char>, n: u64, e: String)
    ensures
        size_complaint(label, path, Err(e)) == label + ": cannot read file '"@ + path + "': "@ + e@,
        size_complaint(label, path, Ok(0)) == label + ": file '"@ + path + "' is empty"@,
        n > 5120 ==> size_complaint(label, path, Ok(n)) == label + ": file '"@ + path
            + "' is too large ("@ + decimal(n as nat) + " bytes, maximum is "@ + decimal(5120)
            + " bytes / "@ + decimal(5) + " KB)"@,
{
}

/// All files are accepted only where each is. Otherwise the complaint is about the first one
/// that is not, in the order of the upload.
pub proof fn law_first_refused_file_is_complained_about(
    params: UploadParams,
    ca: Result<u64, String>,
    client_cert: Result<u64, String>,
    client_key: Result<u64, String>,
)
    ensures
        ({
            let sizes = CertFileSizes { ca, client_cert, client_key };
            let complaint = validation_complaint(local_paths(params), sizes);
            &&& all_acceptable(sizes) <==> acceptable(ca) && acceptable(client_cert) && acceptable(
                client_key,
            )
            &&& !acceptable(ca) ==> complaint == size_complaint(
                "CA Certificate"@,
                params.ca_path@,
                ca,
            )
            &&& acceptable(ca) && !acceptable(client_cert) ==> complaint == size_complaint(
                "Client Certificate"@,
                params.client_cert_path@,
                client_cert,
            )
            &&& acceptable(ca) && acceptable(client_cert) && !acceptable(client_key) ==> complaint
                == size_complaint("Client Private Key"@, params.client_key_path@, client_key)
        }),
{
}

} // verus!
