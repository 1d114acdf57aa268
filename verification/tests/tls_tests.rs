use quanta_realtime_server::tls::{alpn_protocols, compute_cert_sha256};

#[test]
fn alpn_protocols_are_set() {
    let p = alpn_protocols();
    assert_eq!(p.len(), 2);
    assert_eq!(p[0], b"h3");
    assert_eq!(p[1], b"quanta-v1");
}

#[test]
fn cert_sha256_is_32_bytes() {
    let h = compute_cert_sha256(&[vec![0x30, 0x82, 0x01, 0x00]]);
    assert_eq!(h.len(), 32);
}

#[test]
fn cert_sha256_hashes_only_the_leaf() {
    let abc = b"abc".to_vec();
    let expected: [u8; 32] = [
        0xba, 0x78, 0x16, 0xbf, 0x8f, 0x01, 0xcf, 0xea, 0x41, 0x41, 0x40, 0xde, 0x5d, 0xae, 0x22, 0x23, 0xb0, 0x03,
        0x61, 0xa3, 0x96, 0x17, 0x7a, 0x9c, 0xb4, 0x10, 0xff, 0x61, 0xf2, 0x00, 0x15, 0xad,
    ];
    assert_eq!(compute_cert_sha256(&[abc.clone()]), expected);
    assert_eq!(compute_cert_sha256(&[abc, b"intermediate".to_vec()]), expected);
}
