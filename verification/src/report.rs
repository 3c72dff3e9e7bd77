//! What the command line tool prints about an upload.

use vstd::prelude::*;
use vstd::string::*;

use crate::certs::{remote_path, remote_paths, UploadParams};
use crate::device::{line_speed, management_channel, product_name};
use crate::text::{decimal, hex_byte, push_decimal, push_hex_byte};

verus! {

/// What is printed before the upload starts.
pub fn upload_banner(params: &UploadParams) -> (r: String)
    ensures
        r@ == "Device:       "@ + product_name(params.device_type) + " (mux 0x"@ + hex_byte(
            management_channel(params.device_type),
        ) + ", "@ + decimal(line_speed(params.device_type) as nat) + " baud)\nSecurity tag: "@
            + decimal(params.sec_tag as nat) + "\n\nUploading...\n"@,
{
    let mut s = "Device:       ".to_string();
    s.append(params.device_type.display_name());
    s.append(" (mux 0x");
    push_hex_byte(&mut s, params.device_type.mux_addr());
    s.append(", ");
    push_decimal(&mut s, params.device_type.baud_rate() as u64);
    s.append(" baud)\nSecurity tag: ");
    push_decimal(&mut s, params.sec_tag as u64);
    s.append("\n\nUploading...\n");
    s
}

/// What is printed after an upload that succeeded.
pub fn upload_summary(sec_tag: u8) -> (r: String)
    ensures
        r@ == "Done.\n\nAll certificates uploaded successfully.\n  CA cert:     "@ + remote_path(
            sec_tag,
            0,
        ) + "\n  Client cert: "@ + remote_path(sec_tag, 1) + "\n  Client key:  "@ + remote_path(
            sec_tag,
            2,
        ) + "\n"@,
{
    let paths = remote_paths(sec_tag);
    assert(paths@[0]@ == remote_path(sec_tag, 0));
    assert(paths@[1]@ == remote_path(sec_tag, 1));
    assert(paths@[2]@ == remote_path(sec_tag, 2));
    let mut s =
        "Done.\n\nAll certificates uploaded successfully.\n  CA cert:     ".to_string();
    s.append(paths[0].as_str());
    s.append("\n  Client cert: ");
    s.append(paths[1].as_str());
    s.append("\n  Client key:  ");
    s.append(paths[2].as_str());
    s.append("\n");
    s
}

} // verus!
