//! TLS certificate source, the ALPN protocols offered, and the certificate hash that
//! browsers pin for self-signed WebTransport servers.
use vstd::prelude::*;

verus! {

/// Where the TLS certificate comes from.
#[derive(Debug, Clone)]
pub enum TlsConfig {
    File { cert_path: String, key_path: String },
    SelfSigned,
}

/// The ALPN protocols the server offers, in preference order: "h3" then "quanta-v1".
pub fn alpn_protocols() -> (p: Vec<Vec<u8>>)
    ensures
        p@.len() == 2,
        p@[0]@ == seq![0x68u8, 0x33u8],
        p@[1]@ == seq![0x71u8, 0x75u8, 0x61u8, 0x6eu8, 0x74u8, 0x61u8, 0x2du8, 0x76u8, 0x31u8],
{
    let h3: Vec<u8> = vec![0x68u8, 0x33u8];
    let quanta: Vec<u8> = vec![0x71u8, 0x75u8, 0x61u8, 0x6eu8, 0x74u8, 0x61u8, 0x2du8, 0x76u8, 0x31u8];
    let mut p: Vec<Vec<u8>> = Vec::new();
    p.push(h3);
    p.push(quanta);
    p
}

/// The SHA-256 digest of `data`, as the `sha2` crate computes it.
pub uninterp spec fn sha256_digest(data: Seq<u8>) -> Seq<u8>;

/// SHA-256 of `data` (`sha2::Sha256::digest`): the 32-byte digest `sha256_digest(data)`.
#[verifier::external_body]
fn sha256(data: &[u8]) -> (d: [u8; 32])
    ensures
        d@ == sha256_digest(data@),
{
    <sha2::Sha256 as sha2::Digest>::digest(data).into()
}

/// SHA-256 digest of the first (leaf) certificate's DER encoding, which browsers pin
/// through WebTransport's `serverCertificateHashes`; intermediates are ignored.
pub fn compute_cert_sha256(certs: &[Vec<u8>]) -> (d: [u8; 32])
    requires
        certs@.len() > 0,
    ensures
        d@ == sha256_digest(certs@[0]@),
{
    sha256(certs[0].as_slice())
}

} // verus!
