use dt_cert_uploader::mux::MuxSlipSerial;

#[test]
fn encode_escapes_control_bytes() {
    assert_eq!(
        MuxSlipSerial::slip_encode(&[0x0A, 1, 0xDB]),
        vec![0xDB, 0xDC, 1, 0xDB, 0xDD, 0x0A]
    );
    assert_eq!(MuxSlipSerial::slip_encode(&[]), vec![0x0A]);
    assert_eq!(MuxSlipSerial::slip_encode(&[0xDC, 0xDD]), vec![0xDC, 0xDD, 0x0A]);
}

#[test]
fn decode_resolves_escape_pairs() {
    assert_eq!(MuxSlipSerial::slip_decode(&[0xDB, 0xDC, 1, 0xDB, 0xDD, 0x0A]), vec![0x0A, 1, 0xDB]);
    // An unknown pair stands for its second byte, even where that is the end byte.
    assert_eq!(MuxSlipSerial::slip_decode(&[0xDB, 0x41]), vec![0x41]);
    assert_eq!(MuxSlipSerial::slip_decode(&[0xDB, 0x0A]), vec![0x0A]);
    // An escape byte at the very end stands for itself, and end bytes for nothing.
    assert_eq!(MuxSlipSerial::slip_decode(&[0x0A, 7, 0x0A, 0xDB]), vec![7, 0xDB]);
    assert_eq!(MuxSlipSerial::slip_decode(&[]), Vec::<u8>::new());
}

#[test]
fn decode_inverts_encode() {
    let all: Vec<u8> = (0u8..=255).collect();
    let encoded = MuxSlipSerial::slip_encode(&all);
    assert_eq!(encoded.len(), 259);
    assert_eq!(encoded.iter().filter(|b| **b == 0x0A).count(), 1);
    assert_eq!(*encoded.last().unwrap(), 0x0A);
    assert_eq!(MuxSlipSerial::slip_decode(&encoded), all);
}

#[test]
fn write_puts_the_address_first() {
    let line = MuxSlipSerial::new(0x11);
    assert_eq!(line.write(b"hi"), vec![0x11, b'h', b'i', 0x0A]);
    assert_eq!(line.write(&[]), vec![0x11, 0x0A]);
    let odd = MuxSlipSerial::new(0x0A);
    assert_eq!(odd.write(&[5]), vec![0xDB, 0xDC, 5, 0x0A]);
}

#[test]
fn raw_frame_gives_back_a_write() {
    let sender = MuxSlipSerial::new(0x23);
    let mut bytes = sender.write(&[0x0A, 0xDB, 3]);
    let first = bytes.len();
    bytes.extend(sender.write(b"next"));
    let mut line = MuxSlipSerial::new(0x11);
    assert_eq!(line.read_raw_frame(&bytes), (first, Some((0x23, vec![0x0A, 0xDB, 3]))));
    assert_eq!(
        line.read_raw_frame(&bytes[first..]),
        (bytes.len() - first, Some((0x23, b"next".to_vec())))
    );
    assert_eq!(line.read_raw_frame(&[]), (0, None));
}

#[test]
fn raw_frame_passes_over_frames_without_payload() {
    let mut line = MuxSlipSerial::new(0x11);
    assert_eq!(line.read_raw_frame(&[0x0A, 0x11, 0x0A, 0x13, 9, 0x0A, 1]), (6, Some((0x13, vec![9]))));
    assert_eq!(line.read_raw_frame(&[0x0A, 0x11, 0x0A]), (3, None));
}

#[test]
fn raw_frame_keeps_what_is_unfinished() {
    let whole = [0x13u8, 0xDB, 0xDC, 0x42, 0x0A];
    for cut in 0..whole.len() {
        let mut line = MuxSlipSerial::new(0x13);
        assert_eq!(line.read_raw_frame(&whole[..cut]), (cut, None));
        assert_eq!(
            line.read_raw_frame(&whole[cut..]),
            (whole.len() - cut, Some((0x13, vec![0x0A, 0x42])))
        );
    }
}

#[test]
fn many_writes_come_back_in_order() {
    let mut bytes = Vec::new();
    for i in 1u8..=20 {
        bytes.extend(MuxSlipSerial::new(i).write(&vec![i; i as usize]));
    }
    let mut line = MuxSlipSerial::new(0);
    let mut at = 0;
    for i in 1u8..=20 {
        let (n, frame) = line.read_raw_frame(&bytes[at..]);
        at += n;
        assert_eq!(frame, Some((i, vec![i; i as usize])));
    }
    assert_eq!(at, bytes.len());
}

#[test]
fn read_filters_by_address() {
    let mut line = MuxSlipSerial::new(0x11);
    let mut buf = [0u8; 4];
    assert_eq!(line.read(&mut buf), None);
    let foreign = MuxSlipSerial::new(0x23).write(b"xyz");
    assert_eq!(line.fill_read_buf(&foreign), (foreign.len(), true));
    assert_eq!(line.read(&mut buf), None);
    let own = MuxSlipSerial::new(0x11).write(b"hello");
    assert_eq!(line.fill_read_buf(&own), (own.len(), true));
    assert_eq!(line.read(&mut buf), Some(4));
    assert_eq!(&buf, b"hell");
    let mut rest = [9u8; 3];
    assert_eq!(line.read(&mut rest), Some(1));
    assert_eq!(rest, [b'o', 9, 9]);
    assert_eq!(line.read(&mut rest), None);
}

#[test]
fn fill_takes_one_frame_at_a_time() {
    let mut line = MuxSlipSerial::new(1);
    assert_eq!(line.fill_read_buf(&[1, 2]), (2, false));
    assert_eq!(line.fill_read_buf(&[3, 0x0A, 1, 4, 0x0A]), (2, true));
    assert_eq!(line.fill_read_buf(&[0x0A]), (1, true));
    assert_eq!(line.fill_read_buf(&[1, 4, 0x0A]), (3, true));
    let mut buf = [0u8; 8];
    assert_eq!(line.read(&mut buf), Some(3));
    assert_eq!(&buf[..3], &[2, 3, 4]);
    let mut none: [u8; 0] = [];
    line.fill_read_buf(&[1, 4, 0x0A]);
    assert_eq!(line.read(&mut none), Some(0));
}
